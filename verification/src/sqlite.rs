//! The store of examples, templates, saved documents and general documents.
//!
//! Every operation says which statements it hands to the database, with which
//! arguments and in which order, and what it makes of the answers.
use vstd::prelude::*;

use crate::database::arg;
use crate::database::arg_views;
use crate::database::cell_views;
use crate::database::check_row;
use crate::database::check_rows;
use crate::database::column_fits;
use crate::database::connect;
use crate::database::connect_in_memory;
use crate::database::fault_message;
use crate::database::history_of;
use crate::database::inserted_rowid;
use crate::database::integer;
use crate::database::integer_cell;
use crate::database::lemma_row_fits;
use crate::database::lemma_rows_fit;
use crate::database::opt_arg;
use crate::database::opt_cell_text;
use crate::database::opt_text_cell;
use crate::database::outcome_of;
use crate::database::row_fault;
use crate::database::row_views;
use crate::database::rows_fault;
use crate::database::run_batch;
use crate::database::run_query;
use crate::database::run_statement;
use crate::database::shape_of;
use crate::database::text;
use crate::database::text_arg;
use crate::database::text_cell;
use crate::database::ArgView;
use crate::database::CellView;
use crate::database::Column;
use crate::database::ColumnView;
use crate::database::Event;
use crate::database::Fault;
use crate::database::Kind;
use crate::database::SqlArg;
use crate::database::SqlValue;
use crate::database::StoreError;
use crate::json::items_view;
use crate::json::json_reading;
use crate::json::json_text;
use crate::json::parsed_json;
use crate::json::reads_back;
use crate::json::Json;
use crate::json::JsonView;
use crate::json::MAX_DEPTH;
use crate::text::opt_str;
use crate::text::opt_text;

verus! {

/// The store.
pub struct SqliteStore {
    conn: rusqlite::Connection,
}

impl SqliteStore {
    /// What the database was told since the store was opened, with the answers.
    pub closed spec fn history(&self) -> Seq<Event> {
        history_of(self.conn)
    }
}

// ---------------------------------------------------------------------------
// Statements and answers
// ---------------------------------------------------------------------------

/// Whether the history has grown by one statement with these arguments.
pub open spec fn executed(
    before: Seq<Event>,
    after: Seq<Event>,
    sql: Seq<char>,
    args: Seq<ArgView>,
) -> bool {
    &&& after.len() == before.len() + 1
    &&& after.drop_last() == before
    &&& after.last() matches Event::Execute { sql: s, args: a, changed } && s == sql && a == args
}

/// How many rows the last statement changed, if it was carried out.
pub open spec fn changed_rows(history: Seq<Event>) -> Result<usize, Seq<char>> {
    match history.last() {
        Event::Execute { sql, args, changed } => changed,
        _ => Err(Seq::empty()),
    }
}

/// What comes of a statement: how many rows it changed.
pub open spec fn change_result(changed: Result<usize, Seq<char>>) -> Result<usize, Fault> {
    match changed {
        Ok(n) => Ok(n),
        Err(m) => Err(Fault::Database(m)),
    }
}

/// What comes of a statement where it does not matter how many rows it changed.
pub open spec fn done_result(changed: Result<usize, Seq<char>>) -> Result<(), Fault> {
    match changed {
        Ok(_) => Ok(()),
        Err(m) => Err(Fault::Database(m)),
    }
}

/// What comes of a statement where it matters whether it changed any rows.
pub open spec fn any_result(changed: Result<usize, Seq<char>>) -> Result<bool, Fault> {
    match changed {
        Ok(n) => Ok(n > 0),
        Err(m) => Err(Fault::Database(m)),
    }
}

/// Whether the history has grown by one question with these arguments.
pub open spec fn asked(
    before: Seq<Event>,
    after: Seq<Event>,
    sql: Seq<char>,
    args: Seq<ArgView>,
) -> bool {
    &&& after.len() == before.len() + 1
    &&& after.drop_last() == before
    &&& after.last() matches Event::Query { sql: s, args: a, rows } && s == sql && a == args
}

/// The rows of the answer to the last question, if it was answered.
pub open spec fn answer(history: Seq<Event>) -> Result<Seq<Seq<CellView>>, Seq<char>> {
    match history.last() {
        Event::Query { sql, args, rows } => rows,
        _ => Err(Seq::empty()),
    }
}

/// Whether the history has grown by a statement that inserts a row, and what
/// came of it: the number of the row.
pub open spec fn inserted(
    before: Seq<Event>,
    after: Seq<Event>,
    sql: Seq<char>,
    args: Seq<ArgView>,
    result: Result<i64, Fault>,
) -> bool {
    match result {
        Ok(id) => {
            &&& after.len() == before.len() + 2
            &&& executed(before, after.drop_last(), sql, args)
            &&& changed_rows(after.drop_last()) is Ok
            &&& after.last() == Event::LastInsertRowid(id)
        },
        Err(f) => {
            &&& executed(before, after, sql, args)
            &&& changed_rows(after) matches Err(m) && f == Fault::Database(m)
        },
    }
}

impl SqliteStore {
    /// Hands a statement to the database.
    pub(crate) fn execute(&mut self, sql: &str, args: Vec<SqlArg>) -> (r: Result<usize, StoreError>)
        ensures
            executed(old(self).history(), final(self).history(), sql@, arg_views(args@)),
            outcome_of(r) == change_result(changed_rows(final(self).history())),
    {
        let ghost before = history_of(self.conn);
        match run_statement(&mut self.conn, sql, &args) {
            Ok(n) => {
                assert(history_of(self.conn).drop_last() =~= before);
                Ok(n)
            },
            Err(e) => {
                assert(history_of(self.conn).drop_last() =~= before);
                Err(StoreError::Database(e))
            },
        }
    }

    /// Hands statements without arguments to the database.
    pub(crate) fn batch(&mut self, sql: &str) -> (r: Result<(), StoreError>)
        ensures
            final(self).history() == old(self).history().push(
                Event::Batch {
                    sql: sql@,
                    done: match r {
                        Ok(_) => Ok(()),
                        Err(e) => Err(fault_message(e@)),
                    },
                },
            ),
            r matches Err(e) ==> e@ is Database,
    {
        match run_batch(&mut self.conn, sql) {
            Ok(_) => Ok(()),
            Err(e) => Err(StoreError::Database(e)),
        }
    }

    /// Hands a statement to the database, where it does not matter how many
    /// rows it changes.
    pub(crate) fn perform(&mut self, sql: &str, args: Vec<SqlArg>) -> (r: Result<(), StoreError>)
        ensures
            executed(old(self).history(), final(self).history(), sql@, arg_views(args@)),
            outcome_of(r) == done_result(changed_rows(final(self).history())),
    {
        match self.execute(sql, args) {
            Ok(_) => Ok(()),
            Err(e) => Err(e),
        }
    }

    /// Hands a statement to the database, and says whether it changed any rows.
    pub(crate) fn changes(&mut self, sql: &str, args: Vec<SqlArg>) -> (r: Result<bool, StoreError>)
        ensures
            executed(old(self).history(), final(self).history(), sql@, arg_views(args@)),
            outcome_of(r) == any_result(changed_rows(final(self).history())),
    {
        match self.execute(sql, args) {
            Ok(n) => Ok(n > 0),
            Err(e) => Err(e),
        }
    }

    /// Hands a statement that inserts a row to the database, and says what
    /// number the row has.
    pub(crate) fn insert(&mut self, sql: &str, args: Vec<SqlArg>) -> (r: Result<i64, StoreError>)
        ensures
            inserted(
                old(self).history(),
                final(self).history(),
                sql@,
                arg_views(args@),
                outcome_of(r),
            ),
    {
        match self.execute(sql, args) {
            Ok(_) => {
                let ghost between = self.history();
                let id = inserted_rowid(&mut self.conn);
                assert(self.history().drop_last() =~= between);
                Ok(id)
            },
            Err(e) => Err(e),
        }
    }

    /// Asks the database.
    fn query(&mut self, sql: &str, args: Vec<SqlArg>) -> (r: Result<Vec<Vec<SqlValue>>, StoreError>)
        ensures
            asked(old(self).history(), final(self).history(), sql@, arg_views(args@)),
            match r {
                Ok(rows) => answer(final(self).history()) == Ok::<
                    Seq<Seq<CellView>>,
                    Seq<char>,
                >(row_views(rows@)),
                Err(e) => answer(final(self).history()) matches Err(m) && e@ == Fault::Database(
                    m,
                ),
            },
    {
        let ghost before = history_of(self.conn);
        match run_query(&mut self.conn, sql, &args) {
            Ok(rows) => {
                assert(history_of(self.conn).drop_last() =~= before);
                Ok(rows)
            },
            Err(e) => {
                assert(history_of(self.conn).drop_last() =~= before);
                Err(StoreError::Database(e))
            },
        }
    }
}

// ---------------------------------------------------------------------------
// Records
// ---------------------------------------------------------------------------

/// What a row of an answer is read as.
pub trait Record: Sized {
    /// What a value is.
    type V;

    /// The columns that the row has.
    spec fn shape() -> Seq<ColumnView>;

    /// What the row says.
    spec fn of_row(row: Seq<CellView>) -> Self::V;

    /// What the value is.
    spec fn meaning(&self) -> Self::V;

    /// The columns that the row has.
    fn columns() -> (r: Vec<Column>)
        ensures
            shape_of(r@) == Self::shape(),
    ;

    /// Reads a row that has its columns.
    fn from_row(row: &Vec<SqlValue>) -> (r: Self)
        requires
            row_fault(cell_views(row@), Self::shape()) is None,
        ensures
            r.meaning() == Self::of_row(cell_views(row@)),
    ;
}

/// What the values of a list are.
pub open spec fn meanings<R: Record>(list: Seq<R>) -> Seq<R::V> {
    Seq::new(list.len(), |i: int| list[i].meaning())
}

/// What came of reading all rows of an answer.
pub open spec fn list_outcome<R: Record>(r: Result<Vec<R>, StoreError>) -> Result<
    Seq<R::V>,
    Fault,
> {
    match r {
        Ok(list) => Ok(meanings(list@)),
        Err(e) => Err(e@),
    }
}

/// What came of reading the first row of an answer.
pub open spec fn option_outcome<R: Record>(r: Result<Option<R>, StoreError>) -> Result<
    Option<R::V>,
    Fault,
> {
    match r {
        Ok(Some(v)) => Ok(Some(v.meaning())),
        Ok(None) => Ok(None),
        Err(e) => Err(e@),
    }
}

/// What the rows of an answer say, one after the other.
pub open spec fn all_of<R: Record>(rows: Result<Seq<Seq<CellView>>, Seq<char>>) -> Result<Seq<R::V>, Fault> {
    match rows {
        Err(m) => Err(Fault::Database(m)),
        Ok(rows) => match rows_fault(rows, R::shape()) {
            Some(f) => Err(f),
            None => Ok(Seq::new(rows.len(), |i: int| R::of_row(rows[i]))),
        },
    }
}

/// What the first row of an answer says, if there is one.
pub open spec fn first_of<R: Record>(rows: Result<Seq<Seq<CellView>>, Seq<char>>) -> Result<
    Option<R::V>,
    Fault,
> {
    match rows {
        Err(m) => Err(Fault::Database(m)),
        Ok(rows) => if rows.len() == 0 {
            Ok(None)
        } else {
            match row_fault(rows[0], R::shape()) {
                Some(f) => Err(f),
                None => Ok(Some(R::of_row(rows[0]))),
            }
        },
    }
}

/// Reads all rows of an answer.
pub fn read_all<R: Record>(rows: &Vec<Vec<SqlValue>>) -> (r: Result<Vec<R>, StoreError>)
    ensures
        list_outcome(r) == all_of::<R>(Ok(row_views(rows@))),
{
    let ghost all = row_views(rows@);
    let columns = R::columns();
    match check_rows(rows, &columns) {
        Ok(_) => {},
        Err(e) => {
            return Err(e);
        },
    }
    proof {
        lemma_rows_fit(all, R::shape());
    }
    let mut list: Vec<R> = Vec::new();
    let mut i: usize = 0;
    while i < rows.len()
        invariant
            i <= rows@.len(),
            all == row_views(rows@),
            forall|k: int|
                0 <= k < all.len() ==> row_fault(#[trigger] all[k], R::shape()) is None,
            list@.len() == i,
            forall|k: int| 0 <= k < i ==> (#[trigger] list@[k]).meaning() == R::of_row(all[k]),
        decreases rows@.len() - i,
    {
        assert(all[i as int] == cell_views(rows@[i as int]@));
        list.push(R::from_row(&rows[i]));
        i += 1;
    }
    assert(meanings(list@) =~= Seq::new(all.len(), |i: int| R::of_row(all[i])));
    Ok(list)
}

/// Reads the first row of an answer.
pub fn read_first<R: Record>(rows: &Vec<Vec<SqlValue>>) -> (r: Result<Option<R>, StoreError>)
    ensures
        option_outcome(r) == first_of::<R>(Ok(row_views(rows@))),
{
    if rows.len() == 0 {
        return Ok(None);
    }
    let ghost all = row_views(rows@);
    assert(all[0] == cell_views(rows@[0]@));
    let columns = R::columns();
    match check_row(&rows[0], &columns) {
        Ok(_) => {},
        Err(e) => {
            return Err(e);
        },
    }
    Ok(Some(R::from_row(&rows[0])))
}

impl SqliteStore {
    /// Asks the database for a list.
    pub(crate) fn select<R: Record>(&mut self, sql: &str, args: Vec<SqlArg>) -> (r: Result<
        Vec<R>,
        StoreError,
    >)
        ensures
            asked(old(self).history(), final(self).history(), sql@, arg_views(args@)),
            list_outcome(r) == all_of::<R>(answer(final(self).history())),
    {
        match self.query(sql, args) {
            Ok(rows) => read_all(&rows),
            Err(e) => Err(e),
        }
    }

    /// Asks the database for one record.
    pub(crate) fn select_one<R: Record>(&mut self, sql: &str, args: Vec<SqlArg>) -> (r: Result<
        Option<R>,
        StoreError,
    >)
        ensures
            asked(old(self).history(), final(self).history(), sql@, arg_views(args@)),
            option_outcome(r) == first_of::<R>(answer(final(self).history())),
    {
        match self.query(sql, args) {
            Ok(rows) => read_first(&rows),
            Err(e) => Err(e),
        }
    }
}

/// A column.
pub open spec fn col(kind: Kind, name: Seq<char>) -> ColumnView {
    ColumnView { kind, name }
}

/// A text.
impl Record for String {
    type V = Seq<char>;

    open spec fn shape() -> Seq<ColumnView> {
        seq![col(Kind::Text, "fields_json"@)]
    }

    open spec fn of_row(row: Seq<CellView>) -> Seq<char> {
        text(row[0])
    }

    open spec fn meaning(&self) -> Seq<char> {
        self@
    }

    fn columns() -> (r: Vec<Column>) {
        let mut list: Vec<Column> = Vec::new();
        list.push(Column { kind: Kind::Text, name: "fields_json" });
        assert(shape_of(list@) =~= Self::shape());
        list
    }

    fn from_row(row: &Vec<SqlValue>) -> (r: String) {
        proof {
            lemma_row_fits(cell_views(row@), Self::shape(), 0);
            assert(column_fits(cell_views(row@), Self::shape(), 0));
        }
        text_cell(&row[0])
    }
}

/// A number with a text.
impl Record for (i64, String) {
    type V = (i64, Seq<char>);

    open spec fn shape() -> Seq<ColumnView> {
        seq![col(Kind::Integer, "id"@), col(Kind::Text, "embedding"@)]
    }

    open spec fn of_row(row: Seq<CellView>) -> (i64, Seq<char>) {
        (integer(row[0]), text(row[1]))
    }

    open spec fn meaning(&self) -> (i64, Seq<char>) {
        (self.0, self.1@)
    }

    fn columns() -> (r: Vec<Column>) {
        let mut list: Vec<Column> = Vec::new();
        list.push(Column { kind: Kind::Integer, name: "id" });
        list.push(Column { kind: Kind::Text, name: "embedding" });
        assert(shape_of(list@) =~= Self::shape());
        list
    }

    fn from_row(row: &Vec<SqlValue>) -> (r: (i64, String)) {
        proof {
            lemma_row_fits(cell_views(row@), Self::shape(), 0);
            assert(column_fits(cell_views(row@), Self::shape(), 0));
            assert(column_fits(cell_views(row@), Self::shape(), 1));
        }
        (integer_cell(&row[0]), text_cell(&row[1]))
    }
}

/// A number with two texts.
impl Record for (i64, String, String) {
    type V = (i64, Seq<char>, Seq<char>);

    open spec fn shape() -> Seq<ColumnView> {
        seq![col(Kind::Integer, "id"@), col(Kind::Text, "doc_type"@), col(Kind::Text, "embedding"@)]
    }

    open spec fn of_row(row: Seq<CellView>) -> (i64, Seq<char>, Seq<char>) {
        (integer(row[0]), text(row[1]), text(row[2]))
    }

    open spec fn meaning(&self) -> (i64, Seq<char>, Seq<char>) {
        (self.0, self.1@, self.2@)
    }

    fn columns() -> (r: Vec<Column>) {
        let mut list: Vec<Column> = Vec::new();
        list.push(Column { kind: Kind::Integer, name: "id" });
        list.push(Column { kind: Kind::Text, name: "doc_type" });
        list.push(Column { kind: Kind::Text, name: "embedding" });
        assert(shape_of(list@) =~= Self::shape());
        list
    }

    fn from_row(row: &Vec<SqlValue>) -> (r: (i64, String, String)) {
        proof {
            lemma_row_fits(cell_views(row@), Self::shape(), 0);
            assert(column_fits(cell_views(row@), Self::shape(), 0));
            assert(column_fits(cell_views(row@), Self::shape(), 1));
            assert(column_fits(cell_views(row@), Self::shape(), 2));
        }
        (integer_cell(&row[0]), text_cell(&row[1]), text_cell(&row[2]))
    }
}

// ---------------------------------------------------------------------------
// Opening
// ---------------------------------------------------------------------------

/// The tables.
pub const SCHEMA: &'static str = "
CREATE TABLE IF NOT EXISTS gov_doc_memory (
    id INTEGER PRIMARY KEY AUTOINCREMENT,
    doc_type TEXT NOT NULL,
    summary_text TEXT NOT NULL,
    fields_json TEXT NOT NULL,
    recipient_class TEXT,
    agency TEXT,
    template_id TEXT,
    raw_text TEXT,
    embedding TEXT,
    created_at TEXT NOT NULL DEFAULT CURRENT_TIMESTAMP
);

CREATE TABLE IF NOT EXISTS doc_template (
    id INTEGER PRIMARY KEY AUTOINCREMENT,
    doc_type TEXT NOT NULL,
    agency TEXT,
    name TEXT NOT NULL,
    file_path TEXT NOT NULL,
    is_default INTEGER NOT NULL DEFAULT 0,
    created_at TEXT NOT NULL DEFAULT CURRENT_TIMESTAMP,
    UNIQUE(doc_type, agency, name)
);

CREATE TABLE IF NOT EXISTS document (
    id INTEGER PRIMARY KEY AUTOINCREMENT,
    doc_type TEXT NOT NULL,
    title TEXT,
    doc_json TEXT NOT NULL,
    created_at TEXT NOT NULL DEFAULT CURRENT_TIMESTAMP
);

CREATE TABLE IF NOT EXISTS general_document (
    id INTEGER PRIMARY KEY AUTOINCREMENT,
    filename TEXT NOT NULL,
    file_path TEXT NOT NULL,
    page_count INTEGER NOT NULL,
    status TEXT NOT NULL DEFAULT 'pending',
    created_at TEXT NOT NULL DEFAULT CURRENT_TIMESTAMP,
    updated_at TEXT NOT NULL DEFAULT CURRENT_TIMESTAMP
);

CREATE TABLE IF NOT EXISTS general_document_page (
    id INTEGER PRIMARY KEY AUTOINCREMENT,
    document_id INTEGER NOT NULL,
    page_number INTEGER NOT NULL,
    status TEXT NOT NULL DEFAULT 'pending',
    ocr_text TEXT,
    edited_text TEXT,
    error TEXT,
    page_image_path TEXT,
    ocr_raw_json TEXT,
    page_width INTEGER,
    page_height INTEGER,
    layout_warning TEXT,
    updated_at TEXT NOT NULL DEFAULT CURRENT_TIMESTAMP,
    UNIQUE(document_id, page_number),
    FOREIGN KEY(document_id) REFERENCES general_document(id) ON DELETE CASCADE
);

CREATE TABLE IF NOT EXISTS general_document_block (
    id INTEGER PRIMARY KEY AUTOINCREMENT,
    document_id INTEGER NOT NULL,
    page_number INTEGER NOT NULL,
    block_index INTEGER NOT NULL,
    block_type TEXT NOT NULL,
    text TEXT,
    bbox_json TEXT,
    style_json TEXT,
    image_path TEXT,
    embedding TEXT,
    created_at TEXT NOT NULL DEFAULT CURRENT_TIMESTAMP,
    updated_at TEXT NOT NULL DEFAULT CURRENT_TIMESTAMP,
    UNIQUE(document_id, page_number, block_index),
    FOREIGN KEY(document_id) REFERENCES general_document(id) ON DELETE CASCADE
);

CREATE TABLE IF NOT EXISTS general_document_revision (
    id INTEGER PRIMARY KEY AUTOINCREMENT,
    document_id INTEGER NOT NULL,
    page_number INTEGER NOT NULL,
    instruction TEXT NOT NULL,
    text TEXT NOT NULL,
    created_at TEXT NOT NULL DEFAULT CURRENT_TIMESTAMP,
    FOREIGN KEY(document_id) REFERENCES general_document(id) ON DELETE CASCADE
);
";

/// The columns that were added to the tables later.
pub open spec fn added_columns() -> Seq<Seq<char>> {
    seq![
        "ALTER TABLE gov_doc_memory ADD COLUMN embedding TEXT"@,
        "ALTER TABLE general_document_page ADD COLUMN page_image_path TEXT"@,
        "ALTER TABLE general_document_page ADD COLUMN ocr_raw_json TEXT"@,
        "ALTER TABLE general_document_page ADD COLUMN page_width INTEGER"@,
        "ALTER TABLE general_document_page ADD COLUMN page_height INTEGER"@,
        "ALTER TABLE general_document_page ADD COLUMN layout_warning TEXT"@,
    ]
}

/// Whether an event is the addition of a column.
pub open spec fn adds_column(event: Event, sql: Seq<char>) -> bool {
    event matches Event::Execute { sql: s, args, changed } && s == sql && args.len() == 0
}

/// Whether the history has grown by the creation of the tables: the tables
/// first, and then, if they could be created, each column that an older
/// database may lack. Whether a column could be added does not matter, because
/// it may be there already.
pub open spec fn migrated(before: Seq<Event>, after: Seq<Event>, result: Result<(), Fault>) -> bool {
    let n = before.len() as int;
    match result {
        Ok(_) => {
            &&& after.len() == n + 1 + added_columns().len()
            &&& after.take(n) == before
            &&& after[n] == (Event::Batch { sql: SCHEMA@, done: Ok(()) })
            &&& forall|i: int|
                0 <= i < added_columns().len() ==> adds_column(
                    #[trigger] after[n + 1 + i],
                    added_columns()[i],
                )
        },
        Err(f) => f is Database && after == before.push(
            Event::Batch { sql: SCHEMA@, done: Err(fault_message(f)) },
        ),
    }
}

impl SqliteStore {
    /// Adds a column that may be there already.
    fn add_column(&mut self, sql: &str)
        ensures
            final(self).history().len() == old(self).history().len() + 1,
            final(self).history().drop_last() == old(self).history(),
            adds_column(final(self).history().last(), sql@),
    {
        let args: Vec<SqlArg> = Vec::new();
        let _ = self.execute(sql, args);
    }

    /// Creates the tables that are not there yet.
    pub fn migrate(&mut self) -> (r: Result<(), StoreError>)
        ensures
            migrated(old(self).history(), final(self).history(), outcome_of(r)),
    {
        let ghost before = self.history();
        match self.batch(SCHEMA) {
            Ok(_) => {},
            Err(e) => {
                return Err(e);
            },
        }
        let ghost h0 = self.history();
        self.add_column("ALTER TABLE gov_doc_memory ADD COLUMN embedding TEXT");
        let ghost h1 = self.history();
        self.add_column("ALTER TABLE general_document_page ADD COLUMN page_image_path TEXT");
        let ghost h2 = self.history();
        self.add_column("ALTER TABLE general_document_page ADD COLUMN ocr_raw_json TEXT");
        let ghost h3 = self.history();
        self.add_column("ALTER TABLE general_document_page ADD COLUMN page_width INTEGER");
        let ghost h4 = self.history();
        self.add_column("ALTER TABLE general_document_page ADD COLUMN page_height INTEGER");
        let ghost h5 = self.history();
        self.add_column("ALTER TABLE general_document_page ADD COLUMN layout_warning TEXT");
        proof {
            let n = before.len() as int;
            let after = self.history();
            assert(h0.take(n) =~= before);
            assert(h1.drop_last().take(n) =~= h1.take(n));
            assert(h2.drop_last().take(n) =~= h2.take(n));
            assert(h3.drop_last().take(n) =~= h3.take(n));
            assert(h4.drop_last().take(n) =~= h4.take(n));
            assert(h5.drop_last().take(n) =~= h5.take(n));
            assert(after.drop_last().take(n) =~= after.take(n));
            assert(after[n] == h0[n]);
            assert(after[n + 1] == h1[n + 1]);
            assert(after[n + 2] == h2[n + 2]);
            assert(after[n + 3] == h3[n + 3]);
            assert(after[n + 4] == h4[n + 4]);
            assert(after[n + 5] == h5[n + 5]);
            let added = added_columns();
            assert forall|i: int| 0 <= i < added.len() implies adds_column(
                #[trigger] after[n + 1 + i],
                added[i],
            ) by {
                assert(i == 0 || i == 1 || i == 2 || i == 3 || i == 4 || i == 5);
            }
        }
        Ok(())
    }

    /// Opens the store in the file at a path.
    pub fn open(path: &str) -> (r: Result<SqliteStore, StoreError>)
        ensures
            match r {
                Ok(store) => migrated(
                    seq![Event::Opened(Some(path@))],
                    store.history(),
                    Ok(()),
                ),
                Err(e) => e@ is Database,
            },
    {
        match connect(path) {
            Ok(conn) => {
                let mut store = SqliteStore { conn };
                match store.migrate() {
                    Ok(_) => Ok(store),
                    Err(e) => Err(e),
                }
            },
            Err(e) => Err(StoreError::Database(e)),
        }
    }

    /// Opens a store that lasts as long as the value does.
    pub fn open_memory() -> (r: Result<SqliteStore, StoreError>)
        ensures
            match r {
                Ok(store) => migrated(seq![Event::Opened(None)], store.history(), Ok(())),
                Err(e) => e@ is Database,
            },
    {
        match connect_in_memory() {
            Ok(conn) => {
                let mut store = SqliteStore { conn };
                match store.migrate() {
                    Ok(_) => Ok(store),
                    Err(e) => Err(e),
                }
            },
            Err(e) => Err(StoreError::Database(e)),
        }
    }
}

// ---------------------------------------------------------------------------
// Examples
// ---------------------------------------------------------------------------

/// An example to be kept.
pub struct NewMemoryRecord<'a> {
    pub doc_type: &'a str,
    pub summary_text: &'a str,
    pub fields: &'a Json,
    pub recipient_class: Option<&'a str>,
    pub agency: Option<&'a str>,
    pub template_id: Option<&'a str>,
    pub raw_text: Option<&'a str>,
    /// The vector by which the example is found, as a JSON array.
    pub embedding: Option<&'a str>,
}

pub const STORE_MEMORY: &'static str =
    "INSERT INTO gov_doc_memory (doc_type, summary_text, fields_json, recipient_class, agency, template_id, raw_text, embedding) VALUES (?1, ?2, ?3, ?4, ?5, ?6, ?7, ?8)";

pub const MEMORY_FIELDS: &'static str = "SELECT fields_json FROM gov_doc_memory WHERE id = ?1";

pub const RECENT_OF_TYPE: &'static str =
    "SELECT fields_json FROM gov_doc_memory WHERE doc_type = ?1 ORDER BY id DESC LIMIT ?2";

pub const RECENT: &'static str =
    "SELECT fields_json FROM gov_doc_memory ORDER BY id DESC LIMIT ?1";

pub const EMBEDDINGS_OF_TYPE: &'static str =
    "SELECT id, embedding FROM gov_doc_memory WHERE embedding IS NOT NULL AND doc_type = ?1";

pub const EMBEDDINGS: &'static str =
    "SELECT id, embedding FROM gov_doc_memory WHERE embedding IS NOT NULL";

pub const VECTORS: &'static str =
    "SELECT id, doc_type, embedding FROM gov_doc_memory WHERE embedding IS NOT NULL";

/// The JSON values that a list of texts holds, up to the first that is not
/// JSON.
pub open spec fn parsed_all(list: Seq<Seq<char>>) -> Result<Seq<JsonView>, Fault>
    decreases list.len(),
{
    if list.len() == 0 {
        Ok(Seq::empty())
    } else {
        match parsed_all(list.drop_last()) {
            Err(f) => Err(f),
            Ok(values) => match json_reading(list.last()) {
                Ok(v) => Ok(values.push(v)),
                Err(m) => Err(Fault::Json(m)),
            },
        }
    }
}

/// What came of reading a list of JSON values.
pub open spec fn json_list_outcome(r: Result<Vec<Json>, StoreError>) -> Result<
    Seq<JsonView>,
    Fault,
> {
    match r {
        Ok(list) => Ok(items_view(list@)),
        Err(e) => Err(e@),
    }
}

/// What came of reading a JSON value that may be missing.
pub open spec fn json_option_outcome(r: Result<Option<Json>, StoreError>) -> Result<
    Option<JsonView>,
    Fault,
> {
    match r {
        Ok(Some(v)) => Ok(Some(v@)),
        Ok(None) => Ok(None),
        Err(e) => Err(e@),
    }
}

proof fn lemma_parse_failure_stays(list: Seq<Seq<char>>, n: int)
    requires
        0 <= n <= list.len(),
        parsed_all(list.take(n)) is Err,
    ensures
        parsed_all(list) == parsed_all(list.take(n)),
    decreases list.len() - n,
{
    if n < list.len() {
        assert(list.take(n + 1).drop_last() =~= list.take(n));
        lemma_parse_failure_stays(list, n + 1);
    } else {
        assert(list.take(n) =~= list);
    }
}

/// The JSON values that a list of texts holds.
pub fn parse_all(list: &Vec<String>) -> (r: Result<Vec<Json>, StoreError>)
    ensures
        json_list_outcome(r) == parsed_all(meanings(list@)),
{
    let ghost all = meanings(list@);
    let mut values: Vec<Json> = Vec::new();
    assert(items_view(values@) =~= Seq::empty());
    assert(all.take(0) =~= Seq::empty());
    let mut i: usize = 0;
    while i < list.len()
        invariant
            i <= list@.len(),
            all == meanings(list@),
            parsed_all(all.take(i as int)) == Ok::<Seq<JsonView>, Fault>(items_view(values@)),
        decreases list@.len() - i,
    {
        proof {
            assert(all.take(i as int + 1).drop_last() =~= all.take(i as int));
            assert(all.take(i as int + 1).last() == list@[i as int]@);
        }
        match Json::parse(list[i].as_str()) {
            Ok(v) => {
                let ghost before = values@;
                values.push(v);
                assert(items_view(values@) =~= items_view(before).push(v@));
            },
            Err(e) => {
                proof {
                    lemma_parse_failure_stays(all, i as int + 1);
                }
                return Err(StoreError::Json(e));
            },
        }
        i += 1;
    }
    assert(all.take(all.len() as int) =~= all);
    Ok(values)
}

/// The JSON values that the rows of an answer hold.
pub open spec fn fields_list(rows: Result<Seq<Seq<CellView>>, Seq<char>>) -> Result<Seq<JsonView>, Fault> {
    match all_of::<String>(rows) {
        Err(f) => Err(f),
        Ok(list) => parsed_all(list),
    }
}

/// The JSON value that the first row of an answer holds, if there is one.
pub open spec fn fields_option(rows: Result<Seq<Seq<CellView>>, Seq<char>>) -> Result<
    Option<JsonView>,
    Fault,
> {
    match first_of::<String>(rows) {
        Err(f) => Err(f),
        Ok(None) => Ok(None),
        Ok(Some(t)) => match json_reading(t) {
            Ok(v) => Ok(Some(v)),
            Err(m) => Err(Fault::Json(m)),
        },
    }
}

impl SqliteStore {
    /// Keeps an example and says what number it has.
    pub fn store_memory(&mut self, record: NewMemoryRecord<'_>) -> (r: Result<i64, StoreError>)
        ensures
            inserted(
                old(self).history(),
                final(self).history(),
                STORE_MEMORY@,
                seq![
                    ArgView::Text(record.doc_type@),
                    ArgView::Text(record.summary_text@),
                    ArgView::Text(json_text(record.fields@)),
                    text_arg(opt_str(record.recipient_class)),
                    text_arg(opt_str(record.agency)),
                    text_arg(opt_str(record.template_id)),
                    text_arg(opt_str(record.raw_text)),
                    text_arg(opt_str(record.embedding)),
                ],
                outcome_of(r),
            ),
            reads_back(record.fields@, MAX_DEPTH as nat) ==> parsed_json(json_text(record.fields@)) == Some(record.fields@),
    {
        let mut args: Vec<SqlArg> = Vec::new();
        args.push(arg(record.doc_type));
        args.push(arg(record.summary_text));
        args.push(SqlArg::Text(record.fields.to_text()));
        args.push(opt_arg(record.recipient_class));
        args.push(opt_arg(record.agency));
        args.push(opt_arg(record.template_id));
        args.push(opt_arg(record.raw_text));
        args.push(opt_arg(record.embedding));
        assert(arg_views(args@) =~= seq![
            ArgView::Text(record.doc_type@),
            ArgView::Text(record.summary_text@),
            ArgView::Text(json_text(record.fields@)),
            text_arg(opt_str(record.recipient_class)),
            text_arg(opt_str(record.agency)),
            text_arg(opt_str(record.template_id)),
            text_arg(opt_str(record.raw_text)),
            text_arg(opt_str(record.embedding)),
        ]);
        self.insert(STORE_MEMORY, args)
    }

    /// The fields of an example.
    pub fn get_memory_fields(&mut self, id: i64) -> (r: Result<Option<Json>, StoreError>)
        ensures
            asked(
                old(self).history(),
                final(self).history(),
                MEMORY_FIELDS@,
                seq![ArgView::Integer(id)],
            ),
            json_option_outcome(r) == fields_option(answer(final(self).history())),
    {
        let mut args: Vec<SqlArg> = Vec::new();
        args.push(SqlArg::Integer(id));
        assert(arg_views(args@) =~= seq![ArgView::Integer(id)]);
        match self.select_one::<String>(MEMORY_FIELDS, args) {
            Ok(Some(json)) => match Json::parse(json.as_str()) {
                Ok(v) => Ok(Some(v)),
                Err(e) => Err(StoreError::Json(e)),
            },
            Ok(None) => Ok(None),
            Err(e) => Err(e),
        }
    }

    /// The fields of the examples that were kept last, at most `limit` of them,
    /// of one kind or of all.
    pub fn recent_memory_fields(&mut self, doc_type: Option<&str>, limit: usize) -> (r: Result<
        Vec<Json>,
        StoreError,
    >)
        ensures
            match doc_type {
                Some(t) => asked(
                    old(self).history(),
                    final(self).history(),
                    RECENT_OF_TYPE@,
                    seq![ArgView::Text(t@), ArgView::Integer(limit as i64)],
                ),
                None => asked(
                    old(self).history(),
                    final(self).history(),
                    RECENT@,
                    seq![ArgView::Integer(limit as i64)],
                ),
            },
            json_list_outcome(r) == fields_list(answer(final(self).history())),
    {
        let mut args: Vec<SqlArg> = Vec::new();
        let sql = match doc_type {
            Some(t) => {
                args.push(arg(t));
                RECENT_OF_TYPE
            },
            None => RECENT,
        };
        args.push(SqlArg::Integer(limit as i64));
        proof {
            match doc_type {
                Some(t) => assert(arg_views(args@) =~= seq![
                    ArgView::Text(t@),
                    ArgView::Integer(limit as i64),
                ]),
                None => assert(arg_views(args@) =~= seq![ArgView::Integer(limit as i64)]),
            }
        }
        match self.select::<String>(sql, args) {
            Ok(list) => parse_all(&list),
            Err(e) => Err(e),
        }
    }

    /// The numbers and vectors of the examples that have a vector, of one kind
    /// or of all. Each vector is a JSON array.
    pub fn memory_embeddings(&mut self, doc_type: Option<&str>) -> (r: Result<
        Vec<(i64, String)>,
        StoreError,
    >)
        ensures
            match doc_type {
                Some(t) => asked(
                    old(self).history(),
                    final(self).history(),
                    EMBEDDINGS_OF_TYPE@,
                    seq![ArgView::Text(t@)],
                ),
                None => asked(
                    old(self).history(),
                    final(self).history(),
                    EMBEDDINGS@,
                    Seq::empty(),
                ),
            },
            list_outcome(r) == all_of::<(i64, String)>(answer(final(self).history())),
    {
        let mut args: Vec<SqlArg> = Vec::new();
        let sql = match doc_type {
            Some(t) => {
                args.push(arg(t));
                EMBEDDINGS_OF_TYPE
            },
            None => EMBEDDINGS,
        };
        proof {
            match doc_type {
                Some(t) => assert(arg_views(args@) =~= seq![ArgView::Text(t@)]),
                None => assert(arg_views(args@) =~= Seq::empty()),
            }
        }
        self.select::<(i64, String)>(sql, args)
    }

    /// The numbers, kinds and vectors of the examples that have a vector.
    pub fn memory_vectors(&mut self) -> (r: Result<Vec<(i64, String, String)>, StoreError>)
        ensures
            asked(old(self).history(), final(self).history(), VECTORS@, Seq::empty()),
            list_outcome(r) == all_of::<(i64, String, String)>(answer(final(self).history())),
    {
        let args: Vec<SqlArg> = Vec::new();
        assert(arg_views(args@) =~= Seq::empty());
        self.select::<(i64, String, String)>(VECTORS, args)
    }
}

/// Whether the history has grown by a question about each of the first `n`
/// examples.
pub open spec fn fetched(before: Seq<Event>, after: Seq<Event>, ids: Seq<i64>, n: int) -> bool {
    &&& after.len() == before.len() + n
    &&& after.take(before.len() as int) == before
    &&& forall|i: int|
        0 <= i < n ==> ((#[trigger] after[before.len() + i]) matches Event::Query {
            sql,
            args,
            rows,
        } && sql == MEMORY_FIELDS@ && args == seq![ArgView::Integer(ids[i])])
}

/// The fields that the answers to `n` questions hold, from position `from` of
/// the history on, up to the first that is no answer.
pub open spec fn found(history: Seq<Event>, from: int, n: int) -> Result<Seq<JsonView>, Fault>
    decreases n,
{
    if n <= 0 {
        Ok(Seq::empty())
    } else {
        match found(history, from, n - 1) {
            Err(f) => Err(f),
            Ok(list) => match fields_option(answer(history.take(from + n))) {
                Err(f) => Err(f),
                Ok(None) => Ok(list),
                Ok(Some(v)) => Ok(list.push(v)),
            },
        }
    }
}

/// Whether the history has grown by a question about each of the examples, up to
/// the first that is not answered, and what came of it.
pub open spec fn fields_fetched(
    before: Seq<Event>,
    after: Seq<Event>,
    ids: Seq<i64>,
    result: Result<Seq<JsonView>, Fault>,
) -> bool {
    let n = after.len() - before.len();
    &&& fetched(before, after, ids, n)
    &&& result == found(after, before.len() as int, n)
    &&& result is Ok ==> n == ids.len()
    &&& result is Err ==> 0 < n <= ids.len() && found(after, before.len() as int, n - 1) is Ok
}

/// Later events do not change earlier answers.
proof fn lemma_found_stable(history: Seq<Event>, longer: Seq<Event>, from: int, n: int)
    requires
        0 <= from,
        from + n <= history.len() <= longer.len(),
        longer.take(history.len() as int) == history,
    ensures
        found(longer, from, n) == found(history, from, n),
    decreases n,
{
    if n > 0 {
        lemma_found_stable(history, longer, from, n - 1);
        assert(longer.take(from + n) =~= history.take(from + n)) by {
            assert(longer.take(history.len() as int).take(from + n) =~= longer.take(from + n));
        }
    }
}

impl SqliteStore {
    /// The fields of examples, in the order of their numbers here. Examples
    /// that are not there are left out.
    pub fn memory_fields_by_ids(&mut self, ids: &Vec<i64>) -> (r: Result<Vec<Json>, StoreError>)
        ensures
            fields_fetched(
                old(self).history(),
                final(self).history(),
                ids@,
                json_list_outcome(r),
            ),
    {
        let ghost before = self.history();
        let mut fields: Vec<Json> = Vec::new();
        assert(items_view(fields@) =~= Seq::empty());
        assert(before.take(before.len() as int) =~= before);
        let mut i: usize = 0;
        while i < ids.len()
            invariant
                i <= ids@.len(),
                before == old(self).history(),
                fetched(before, self.history(), ids@, i as int),
                found(self.history(), before.len() as int, i as int) == Ok::<
                    Seq<JsonView>,
                    Fault,
                >(items_view(fields@)),
            decreases ids@.len() - i,
        {
            let ghost h = self.history();
            let ghost n = before.len() as int;
            let got = self.get_memory_fields(ids[i]);
            proof {
                let now = self.history();
                assert(now.take(h.len() as int) =~= h) by {
                    assert(now.drop_last() =~= now.take(h.len() as int));
                }
                assert(now.take(n) =~= h.take(n));
                assert forall|k: int| 0 <= k < i + 1 implies ((#[trigger] now[n + k]) matches
                    Event::Query { sql, args, rows } && sql == MEMORY_FIELDS@ && args == seq![
                    ArgView::Integer(ids@[k]),
                ]) by {
                    if k < i {
                        assert(now[n + k] == h[n + k]);
                    }
                }
                lemma_found_stable(h, now, n, i as int);
                assert(now.take(n + i + 1) =~= now);
            }
            match got {
                Ok(Some(v)) => {
                    let ghost list = fields@;
                    fields.push(v);
                    assert(items_view(fields@) =~= items_view(list).push(v@));
                },
                Ok(None) => {},
                Err(e) => {
                    return Err(e);
                },
            }
            i += 1;
        }
        Ok(fields)
    }
}

// ---------------------------------------------------------------------------
// Saved documents
// ---------------------------------------------------------------------------

/// A saved document.
#[derive(Debug)]
pub struct DocumentRecord {
    pub id: i64,
    pub doc_type: String,
    pub title: Option<String>,
    pub doc_json: Json,
    pub created_at: String,
}

/// What a saved document is.
pub struct DocumentView {
    pub id: i64,
    pub doc_type: Seq<char>,
    pub title: Option<Seq<char>>,
    pub doc_json: JsonView,
    pub created_at: Seq<char>,
}

impl DocumentRecord {
    pub open spec fn view(&self) -> DocumentView {
        DocumentView {
            id: self.id,
            doc_type: self.doc_type@,
            title: opt_text(self.title),
            doc_json: self.doc_json@,
            created_at: self.created_at@,
        }
    }
}

/// The row of a saved document.
#[derive(Debug)]
pub struct DocumentRow {
    pub id: i64,
    pub doc_type: String,
    pub title: Option<String>,
    pub doc_json: String,
    pub created_at: String,
}

/// What the row of a saved document is.
pub struct DocumentRowView {
    pub id: i64,
    pub doc_type: Seq<char>,
    pub title: Option<Seq<char>>,
    pub doc_json: Seq<char>,
    pub created_at: Seq<char>,
}

impl Record for DocumentRow {
    type V = DocumentRowView;

    open spec fn shape() -> Seq<ColumnView> {
        seq![
            col(Kind::Integer, "id"@),
            col(Kind::Text, "doc_type"@),
            col(Kind::OptText, "title"@),
            col(Kind::Text, "doc_json"@),
            col(Kind::Text, "created_at"@),
        ]
    }

    open spec fn of_row(row: Seq<CellView>) -> DocumentRowView {
        DocumentRowView {
            id: integer(row[0]),
            doc_type: text(row[1]),
            title: opt_cell_text(row[2]),
            doc_json: text(row[3]),
            created_at: text(row[4]),
        }
    }

    open spec fn meaning(&self) -> DocumentRowView {
        DocumentRowView {
            id: self.id,
            doc_type: self.doc_type@,
            title: opt_text(self.title),
            doc_json: self.doc_json@,
            created_at: self.created_at@,
        }
    }

    fn columns() -> (r: Vec<Column>) {
        let mut list: Vec<Column> = Vec::new();
        list.push(Column { kind: Kind::Integer, name: "id" });
        list.push(Column { kind: Kind::Text, name: "doc_type" });
        list.push(Column { kind: Kind::OptText, name: "title" });
        list.push(Column { kind: Kind::Text, name: "doc_json" });
        list.push(Column { kind: Kind::Text, name: "created_at" });
        assert(shape_of(list@) =~= Self::shape());
        list
    }

    fn from_row(row: &Vec<SqlValue>) -> (r: DocumentRow) {
        proof {
            let cells = cell_views(row@);
            lemma_row_fits(cells, Self::shape(), 0);
            assert(column_fits(cells, Self::shape(), 0));
            assert(column_fits(cells, Self::shape(), 1));
            assert(column_fits(cells, Self::shape(), 2));
            assert(column_fits(cells, Self::shape(), 3));
            assert(column_fits(cells, Self::shape(), 4));
        }
        DocumentRow {
            id: integer_cell(&row[0]),
            doc_type: text_cell(&row[1]),
            title: opt_text_cell(&row[2]),
            doc_json: text_cell(&row[3]),
            created_at: text_cell(&row[4]),
        }
    }
}

/// The entry of a saved document in a list.
#[derive(Debug)]
pub struct DocumentSummary {
    pub id: i64,
    pub doc_type: String,
    pub title: Option<String>,
    pub created_at: String,
}

/// What the entry of a saved document in a list is.
pub struct DocumentSummaryView {
    pub id: i64,
    pub doc_type: Seq<char>,
    pub title: Option<Seq<char>>,
    pub created_at: Seq<char>,
}

impl Record for DocumentSummary {
    type V = DocumentSummaryView;

    open spec fn shape() -> Seq<ColumnView> {
        seq![
            col(Kind::Integer, "id"@),
            col(Kind::Text, "doc_type"@),
            col(Kind::OptText, "title"@),
            col(Kind::Text, "created_at"@),
        ]
    }

    open spec fn of_row(row: Seq<CellView>) -> DocumentSummaryView {
        DocumentSummaryView {
            id: integer(row[0]),
            doc_type: text(row[1]),
            title: opt_cell_text(row[2]),
            created_at: text(row[3]),
        }
    }

    open spec fn meaning(&self) -> DocumentSummaryView {
        DocumentSummaryView {
            id: self.id,
            doc_type: self.doc_type@,
            title: opt_text(self.title),
            created_at: self.created_at@,
        }
    }

    fn columns() -> (r: Vec<Column>) {
        let mut list: Vec<Column> = Vec::new();
        list.push(Column { kind: Kind::Integer, name: "id" });
        list.push(Column { kind: Kind::Text, name: "doc_type" });
        list.push(Column { kind: Kind::OptText, name: "title" });
        list.push(Column { kind: Kind::Text, name: "created_at" });
        assert(shape_of(list@) =~= Self::shape());
        list
    }

    fn from_row(row: &Vec<SqlValue>) -> (r: DocumentSummary) {
        proof {
            let cells = cell_views(row@);
            lemma_row_fits(cells, Self::shape(), 0);
            assert(column_fits(cells, Self::shape(), 0));
            assert(column_fits(cells, Self::shape(), 1));
            assert(column_fits(cells, Self::shape(), 2));
            assert(column_fits(cells, Self::shape(), 3));
        }
        DocumentSummary {
            id: integer_cell(&row[0]),
            doc_type: text_cell(&row[1]),
            title: opt_text_cell(&row[2]),
            created_at: text_cell(&row[3]),
        }
    }
}

pub const SAVE_DOCUMENT: &'static str =
    "INSERT INTO document (doc_type, title, doc_json) VALUES (?1, ?2, ?3)";

pub const DOCUMENTS_OF_TYPE: &'static str =
    "SELECT id, doc_type, title, created_at FROM document WHERE doc_type = ?1 ORDER BY id DESC";

pub const DOCUMENTS: &'static str =
    "SELECT id, doc_type, title, created_at FROM document ORDER BY id DESC";

pub const GET_DOCUMENT: &'static str =
    "SELECT id, doc_type, title, doc_json, created_at FROM document WHERE id = ?1";

pub const UPDATE_DOCUMENT: &'static str =
    "UPDATE document SET doc_type = ?1, title = ?2, doc_json = ?3 WHERE id = ?4";

pub const DELETE_DOCUMENT: &'static str = "DELETE FROM document WHERE id = ?1";

/// The document that the first row of an answer holds, if there is one.
pub open spec fn document_option(rows: Result<Seq<Seq<CellView>>, Seq<char>>) -> Result<
    Option<DocumentView>,
    Fault,
> {
    match first_of::<DocumentRow>(rows) {
        Err(f) => Err(f),
        Ok(None) => Ok(None),
        Ok(Some(row)) => match json_reading(row.doc_json) {
            Ok(v) => Ok(
                Some(
                    DocumentView {
                        id: row.id,
                        doc_type: row.doc_type,
                        title: row.title,
                        doc_json: v,
                        created_at: row.created_at,
                    },
                ),
            ),
            Err(m) => Err(Fault::Json(m)),
        },
    }
}

/// What came of asking for a document.
pub open spec fn document_outcome(r: Result<Option<DocumentRecord>, StoreError>) -> Result<
    Option<DocumentView>,
    Fault,
> {
    match r {
        Ok(Some(d)) => Ok(Some(d@)),
        Ok(None) => Ok(None),
        Err(e) => Err(e@),
    }
}

impl SqliteStore {
    /// Saves a document and says what number it has.
    pub fn save_document(&mut self, doc_type: &str, title: Option<&str>, doc_json: &Json) -> (r:
        Result<i64, StoreError>)
        ensures
            inserted(
                old(self).history(),
                final(self).history(),
                SAVE_DOCUMENT@,
                seq![
                    ArgView::Text(doc_type@),
                    text_arg(opt_str(title)),
                    ArgView::Text(json_text(doc_json@)),
                ],
                outcome_of(r),
            ),
            reads_back(doc_json@, MAX_DEPTH as nat) ==> parsed_json(json_text(doc_json@)) == Some(doc_json@),
    {
        let mut args: Vec<SqlArg> = Vec::new();
        args.push(arg(doc_type));
        args.push(opt_arg(title));
        args.push(SqlArg::Text(doc_json.to_text()));
        assert(arg_views(args@) =~= seq![
            ArgView::Text(doc_type@),
            text_arg(opt_str(title)),
            ArgView::Text(json_text(doc_json@)),
        ]);
        self.insert(SAVE_DOCUMENT, args)
    }

    /// The saved documents of one kind or of all, the last first.
    pub fn list_documents(&mut self, doc_type: Option<&str>) -> (r: Result<
        Vec<DocumentSummary>,
        StoreError,
    >)
        ensures
            match doc_type {
                Some(t) => asked(
                    old(self).history(),
                    final(self).history(),
                    DOCUMENTS_OF_TYPE@,
                    seq![ArgView::Text(t@)],
                ),
                None => asked(old(self).history(), final(self).history(), DOCUMENTS@, Seq::empty()),
            },
            list_outcome(r) == all_of::<DocumentSummary>(answer(final(self).history())),
    {
        let mut args: Vec<SqlArg> = Vec::new();
        let sql = match doc_type {
            Some(t) => {
                args.push(arg(t));
                DOCUMENTS_OF_TYPE
            },
            None => DOCUMENTS,
        };
        proof {
            match doc_type {
                Some(t) => assert(arg_views(args@) =~= seq![ArgView::Text(t@)]),
                None => assert(arg_views(args@) =~= Seq::empty()),
            }
        }
        self.select::<DocumentSummary>(sql, args)
    }

    /// A saved document.
    pub fn get_document(&mut self, id: i64) -> (r: Result<Option<DocumentRecord>, StoreError>)
        ensures
            asked(
                old(self).history(),
                final(self).history(),
                GET_DOCUMENT@,
                seq![ArgView::Integer(id)],
            ),
            document_outcome(r) == document_option(answer(final(self).history())),
    {
        let mut args: Vec<SqlArg> = Vec::new();
        args.push(SqlArg::Integer(id));
        assert(arg_views(args@) =~= seq![ArgView::Integer(id)]);
        match self.select_one::<DocumentRow>(GET_DOCUMENT, args) {
            Ok(Some(row)) => match Json::parse(row.doc_json.as_str()) {
                Ok(v) => Ok(
                    Some(
                        DocumentRecord {
                            id: row.id,
                            doc_type: row.doc_type,
                            title: row.title,
                            doc_json: v,
                            created_at: row.created_at,
                        },
                    ),
                ),
                Err(e) => Err(StoreError::Json(e)),
            },
            Ok(None) => Ok(None),
            Err(e) => Err(e),
        }
    }

    /// Replaces a saved document, and says whether there was one.
    pub fn update_document(
        &mut self,
        id: i64,
        doc_type: &str,
        title: Option<&str>,
        doc_json: &Json,
    ) -> (r: Result<bool, StoreError>)
        ensures
            executed(
                old(self).history(),
                final(self).history(),
                UPDATE_DOCUMENT@,
                seq![
                    ArgView::Text(doc_type@),
                    text_arg(opt_str(title)),
                    ArgView::Text(json_text(doc_json@)),
                    ArgView::Integer(id),
                ],
            ),
            outcome_of(r) == any_result(changed_rows(final(self).history())),
            reads_back(doc_json@, MAX_DEPTH as nat) ==> parsed_json(json_text(doc_json@)) == Some(doc_json@),
    {
        let mut args: Vec<SqlArg> = Vec::new();
        args.push(arg(doc_type));
        args.push(opt_arg(title));
        args.push(SqlArg::Text(doc_json.to_text()));
        args.push(SqlArg::Integer(id));
        assert(arg_views(args@) =~= seq![
            ArgView::Text(doc_type@),
            text_arg(opt_str(title)),
            ArgView::Text(json_text(doc_json@)),
            ArgView::Integer(id),
        ]);
        self.changes(UPDATE_DOCUMENT, args)
    }

    /// Deletes a saved document, and says whether there was one.
    pub fn delete_document(&mut self, id: i64) -> (r: Result<bool, StoreError>)
        ensures
            executed(
                old(self).history(),
                final(self).history(),
                DELETE_DOCUMENT@,
                seq![ArgView::Integer(id)],
            ),
            outcome_of(r) == any_result(changed_rows(final(self).history())),
    {
        let mut args: Vec<SqlArg> = Vec::new();
        args.push(SqlArg::Integer(id));
        assert(arg_views(args@) =~= seq![ArgView::Integer(id)]);
        self.changes(DELETE_DOCUMENT, args)
    }
}

// ---------------------------------------------------------------------------
// Templates
// ---------------------------------------------------------------------------

/// A template to be registered.
pub struct NewTemplateRecord<'a> {
    pub doc_type: &'a str,
    pub name: &'a str,
    pub file_path: &'a str,
    pub agency: Option<&'a str>,
    pub is_default: bool,
}

/// A registered template.
#[derive(Debug)]
pub struct TemplateRecord {
    pub id: i64,
    pub doc_type: String,
    pub agency: Option<String>,
    pub name: String,
    pub file_path: String,
    pub is_default: bool,
}

/// What a registered template is.
pub struct TemplateRecordView {
    pub id: i64,
    pub doc_type: Seq<char>,
    pub agency: Option<Seq<char>>,
    pub name: Seq<char>,
    pub file_path: Seq<char>,
    pub is_default: bool,
}

impl Record for TemplateRecord {
    type V = TemplateRecordView;

    open spec fn shape() -> Seq<ColumnView> {
        seq![
            col(Kind::Integer, "id"@),
            col(Kind::Text, "doc_type"@),
            col(Kind::OptText, "agency"@),
            col(Kind::Text, "name"@),
            col(Kind::Text, "file_path"@),
            col(Kind::Integer, "is_default"@),
        ]
    }

    open spec fn of_row(row: Seq<CellView>) -> TemplateRecordView {
        TemplateRecordView {
            id: integer(row[0]),
            doc_type: text(row[1]),
            agency: opt_cell_text(row[2]),
            name: text(row[3]),
            file_path: text(row[4]),
            is_default: integer(row[5]) == 1,
        }
    }

    open spec fn meaning(&self) -> TemplateRecordView {
        TemplateRecordView {
            id: self.id,
            doc_type: self.doc_type@,
            agency: opt_text(self.agency),
            name: self.name@,
            file_path: self.file_path@,
            is_default: self.is_default,
        }
    }

    fn columns() -> (r: Vec<Column>) {
        let mut list: Vec<Column> = Vec::new();
        list.push(Column { kind: Kind::Integer, name: "id" });
        list.push(Column { kind: Kind::Text, name: "doc_type" });
        list.push(Column { kind: Kind::OptText, name: "agency" });
        list.push(Column { kind: Kind::Text, name: "name" });
        list.push(Column { kind: Kind::Text, name: "file_path" });
        list.push(Column { kind: Kind::Integer, name: "is_default" });
        assert(shape_of(list@) =~= Self::shape());
        list
    }

    fn from_row(row: &Vec<SqlValue>) -> (r: TemplateRecord) {
        proof {
            let cells = cell_views(row@);
            lemma_row_fits(cells, Self::shape(), 0);
            assert(column_fits(cells, Self::shape(), 0));
            assert(column_fits(cells, Self::shape(), 1));
            assert(column_fits(cells, Self::shape(), 2));
            assert(column_fits(cells, Self::shape(), 3));
            assert(column_fits(cells, Self::shape(), 4));
            assert(column_fits(cells, Self::shape(), 5));
        }
        TemplateRecord {
            id: integer_cell(&row[0]),
            doc_type: text_cell(&row[1]),
            agency: opt_text_cell(&row[2]),
            name: text_cell(&row[3]),
            file_path: text_cell(&row[4]),
            is_default: integer_cell(&row[5]) == 1,
        }
    }
}

pub const CREATE_TEMPLATE: &'static str =
    "INSERT INTO doc_template (doc_type, agency, name, file_path, is_default) VALUES (?1, ?2, ?3, ?4, ?5)";

pub const GET_TEMPLATE: &'static str =
    "SELECT id, doc_type, agency, name, file_path, is_default FROM doc_template WHERE id = ?1";

pub const TEMPLATES_OF_TYPE_AND_AGENCY: &'static str =
    "SELECT id, doc_type, agency, name, file_path, is_default FROM doc_template WHERE doc_type = ?1 AND agency = ?2 ORDER BY id DESC";

pub const TEMPLATES_OF_TYPE: &'static str =
    "SELECT id, doc_type, agency, name, file_path, is_default FROM doc_template WHERE doc_type = ?1 ORDER BY id DESC";

pub const TEMPLATES_OF_AGENCY: &'static str =
    "SELECT id, doc_type, agency, name, file_path, is_default FROM doc_template WHERE agency = ?1 ORDER BY id DESC";

pub const TEMPLATES: &'static str =
    "SELECT id, doc_type, agency, name, file_path, is_default FROM doc_template ORDER BY id DESC";

pub const DEFAULT_OF_AGENCY: &'static str =
    "SELECT id, doc_type, agency, name, file_path, is_default FROM doc_template WHERE doc_type = ?1 AND agency = ?2 AND is_default = 1";

pub const CENTRAL_DEFAULT: &'static str =
    "SELECT id, doc_type, agency, name, file_path, is_default FROM doc_template WHERE doc_type = ?1 AND agency IS NULL AND is_default = 1";

pub const UNSET_DEFAULT_OF_AGENCY: &'static str =
    "UPDATE doc_template SET is_default = 0 WHERE doc_type = ?1 AND agency = ?2";

pub const UNSET_CENTRAL_DEFAULT: &'static str =
    "UPDATE doc_template SET is_default = 0 WHERE doc_type = ?1 AND agency IS NULL";

/// The arguments of a statement about the templates of a kind, for an agency or
/// for none.
pub open spec fn scope_args(doc_type: Seq<char>, agency: Option<Seq<char>>) -> Seq<ArgView> {
    match agency {
        Some(a) => seq![ArgView::Text(doc_type), ArgView::Text(a)],
        None => seq![ArgView::Text(doc_type)],
    }
}

/// The statement that makes no template of a kind the default, for an agency or
/// for none.
pub open spec fn unset_sql(agency: Option<Seq<char>>) -> Seq<char> {
    match agency {
        Some(_) => UNSET_DEFAULT_OF_AGENCY@,
        None => UNSET_CENTRAL_DEFAULT@,
    }
}

/// The question for the default of a kind, for an agency or for none.
pub open spec fn default_sql(agency: Option<Seq<char>>) -> Seq<char> {
    match agency {
        Some(_) => DEFAULT_OF_AGENCY@,
        None => CENTRAL_DEFAULT@,
    }
}

/// The arguments of the statement that registers a template.
pub open spec fn template_args(record: NewTemplateRecord<'_>) -> Seq<ArgView> {
    seq![
        ArgView::Text(record.doc_type@),
        text_arg(opt_str(record.agency)),
        ArgView::Text(record.name@),
        ArgView::Text(record.file_path@),
        ArgView::Integer(
            if record.is_default {
                1
            } else {
                0
            },
        ),
    ]
}

/// Whether the history has grown by the question for the default template of an
/// agency and, where it has none or none is named, for the central one; and
/// what came of it.
pub open spec fn default_resolved(
    before: Seq<Event>,
    after: Seq<Event>,
    doc_type: Seq<char>,
    agency: Option<Seq<char>>,
    result: Result<Option<TemplateRecordView>, Fault>,
) -> bool {
    let of_agency = after.take(before.len() as int + 1);
    let own = first_of::<TemplateRecord>(answer(of_agency));
    &&& after.len() > before.len()
    &&& if agency is None {
        asked(before, after, default_sql(None), scope_args(doc_type, None)) && result == first_of::<
            TemplateRecord,
        >(answer(after))
    } else {
        &&& asked(before, of_agency, default_sql(agency), scope_args(doc_type, agency))
        &&& if own == Ok::<Option<TemplateRecordView>, Fault>(None) {
            asked(of_agency, after, default_sql(None), scope_args(doc_type, None)) && result
                == first_of::<TemplateRecord>(answer(after))
        } else {
            after == of_agency && result == own
        }
    }
}

/// Whether the history has grown by the registration of a template. Where it is
/// to be the default, the templates of its kind and agency stop being so first.
pub open spec fn template_created(
    before: Seq<Event>,
    after: Seq<Event>,
    record: NewTemplateRecord<'_>,
    result: Result<i64, Fault>,
) -> bool {
    let scope = opt_str(record.agency);
    if !record.is_default {
        inserted(before, after, CREATE_TEMPLATE@, template_args(record), result)
    } else {
        let between = after.take(before.len() as int + 1);
        &&& after.len() > before.len()
        &&& executed(before, between, unset_sql(scope), scope_args(record.doc_type@, scope))
        &&& match changed_rows(between) {
            Err(m) => after == between && result == Err::<i64, Fault>(Fault::Database(m)),
            Ok(_) => inserted(between, after, CREATE_TEMPLATE@, template_args(record), result),
        }
    }
}

/// The question for a list of templates.
pub open spec fn templates_sql(doc_type: Option<Seq<char>>, agency: Option<Seq<char>>) -> Seq<
    char,
> {
    match (doc_type, agency) {
        (Some(_), Some(_)) => TEMPLATES_OF_TYPE_AND_AGENCY@,
        (Some(_), None) => TEMPLATES_OF_TYPE@,
        (None, Some(_)) => TEMPLATES_OF_AGENCY@,
        (None, None) => TEMPLATES@,
    }
}

/// The arguments of the question for a list of templates.
pub open spec fn templates_args(doc_type: Option<Seq<char>>, agency: Option<Seq<char>>) -> Seq<
    ArgView,
> {
    match (doc_type, agency) {
        (Some(t), Some(a)) => seq![ArgView::Text(t), ArgView::Text(a)],
        (Some(t), None) => seq![ArgView::Text(t)],
        (None, Some(a)) => seq![ArgView::Text(a)],
        (None, None) => Seq::empty(),
    }
}

/// The arguments of a statement about the templates of a kind.
fn build_scope_args(doc_type: &str, agency: Option<&str>) -> (r: Vec<SqlArg>)
    ensures
        arg_views(r@) == scope_args(doc_type@, opt_str(agency)),
{
    let mut args: Vec<SqlArg> = Vec::new();
    args.push(arg(doc_type));
    match agency {
        Some(a) => {
            args.push(arg(a));
        },
        None => {},
    }
    assert(arg_views(args@) =~= scope_args(doc_type@, opt_str(agency)));
    args
}

impl SqliteStore {
    /// Makes no template of a kind the default.
    fn unset_default(&mut self, doc_type: &str, agency: Option<&str>) -> (r: Result<
        (),
        StoreError,
    >)
        ensures
            executed(
                old(self).history(),
                final(self).history(),
                unset_sql(opt_str(agency)),
                scope_args(doc_type@, opt_str(agency)),
            ),
            outcome_of(r) == done_result(changed_rows(final(self).history())),
    {
        let args = build_scope_args(doc_type, agency);
        match agency {
            Some(_) => self.perform(UNSET_DEFAULT_OF_AGENCY, args),
            None => self.perform(UNSET_CENTRAL_DEFAULT, args),
        }
    }

    /// Registers a template and says what number it has. Where it is to be the
    /// default, the templates of its kind and agency stop being so first.
    pub fn create_template(&mut self, record: NewTemplateRecord<'_>) -> (r: Result<i64, StoreError>)
        ensures
            template_created(old(self).history(), final(self).history(), record, outcome_of(r)),
    {
        let ghost before = self.history();
        if record.is_default {
            match self.unset_default(record.doc_type, record.agency) {
                Ok(_) => {},
                Err(e) => {
                    assert(self.history().take(before.len() as int + 1) =~= self.history());
                    return Err(e);
                },
            }
        }
        let ghost between = self.history();
        let flag: i64 = if record.is_default {
            1
        } else {
            0
        };
        let mut args: Vec<SqlArg> = Vec::new();
        args.push(arg(record.doc_type));
        args.push(opt_arg(record.agency));
        args.push(arg(record.name));
        args.push(arg(record.file_path));
        args.push(SqlArg::Integer(flag));
        assert(arg_views(args@) =~= template_args(record));
        let r = self.insert(CREATE_TEMPLATE, args);
        proof {
            let after = self.history();
            let n = between.len() as int;
            match outcome_of(r) {
                Ok(id) => {
                    assert(after.drop_last().drop_last() =~= after.take(n));
                },
                Err(f) => {
                    assert(after.drop_last() =~= after.take(n));
                },
            }
        }
        r
    }

    /// A registered template.
    pub fn get_template(&mut self, id: i64) -> (r: Result<Option<TemplateRecord>, StoreError>)
        ensures
            asked(
                old(self).history(),
                final(self).history(),
                GET_TEMPLATE@,
                seq![ArgView::Integer(id)],
            ),
            option_outcome(r) == first_of::<TemplateRecord>(answer(final(self).history())),
    {
        let mut args: Vec<SqlArg> = Vec::new();
        args.push(SqlArg::Integer(id));
        assert(arg_views(args@) =~= seq![ArgView::Integer(id)]);
        self.select_one::<TemplateRecord>(GET_TEMPLATE, args)
    }

    /// The registered templates, of one kind or of all and of one agency or of
    /// all, the last first.
    pub fn list_templates(&mut self, doc_type: Option<&str>, agency: Option<&str>) -> (r: Result<
        Vec<TemplateRecord>,
        StoreError,
    >)
        ensures
            asked(
                old(self).history(),
                final(self).history(),
                templates_sql(opt_str(doc_type), opt_str(agency)),
                templates_args(opt_str(doc_type), opt_str(agency)),
            ),
            list_outcome(r) == all_of::<TemplateRecord>(answer(final(self).history())),
    {
        let mut args: Vec<SqlArg> = Vec::new();
        match doc_type {
            Some(t) => {
                args.push(arg(t));
            },
            None => {},
        }
        match agency {
            Some(a) => {
                args.push(arg(a));
            },
            None => {},
        }
        assert(arg_views(args@) =~= templates_args(opt_str(doc_type), opt_str(agency)));
        let sql = match (doc_type, agency) {
            (Some(_), Some(_)) => TEMPLATES_OF_TYPE_AND_AGENCY,
            (Some(_), None) => TEMPLATES_OF_TYPE,
            (None, Some(_)) => TEMPLATES_OF_AGENCY,
            (None, None) => TEMPLATES,
        };
        self.select::<TemplateRecord>(sql, args)
    }

    /// The default template of a kind, for an agency or for none.
    fn find_default(&mut self, doc_type: &str, agency: Option<&str>) -> (r: Result<
        Option<TemplateRecord>,
        StoreError,
    >)
        ensures
            asked(
                old(self).history(),
                final(self).history(),
                default_sql(opt_str(agency)),
                scope_args(doc_type@, opt_str(agency)),
            ),
            option_outcome(r) == first_of::<TemplateRecord>(answer(final(self).history())),
    {
        let args = build_scope_args(doc_type, agency);
        match agency {
            Some(_) => self.select_one::<TemplateRecord>(DEFAULT_OF_AGENCY, args),
            None => self.select_one::<TemplateRecord>(CENTRAL_DEFAULT, args),
        }
    }

    /// The default template of a kind: that of the agency, and where it has
    /// none, the central one.
    pub fn resolve_default(&mut self, doc_type: &str, agency: Option<&str>) -> (r: Result<
        Option<TemplateRecord>,
        StoreError,
    >)
        ensures
            default_resolved(
                old(self).history(),
                final(self).history(),
                doc_type@,
                opt_str(agency),
                option_outcome(r),
            ),
    {
        let ghost before = self.history();
        match agency {
            Some(_) => {
                let own = self.find_default(doc_type, agency);
                let ghost between = self.history();
                assert(between.take(before.len() as int + 1) =~= between);
                match own {
                    Ok(None) => {},
                    found => {
                        return found;
                    },
                }
                let r = self.find_default(doc_type, None);
                assert(self.history().take(before.len() as int + 1) =~= self.history().drop_last());
                r
            },
            None => self.find_default(doc_type, None),
        }
    }
}

} // verus!
