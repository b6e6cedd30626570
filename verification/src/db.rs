use vstd::prelude::*;
use rusqlite::{Connection, OptionalExtension, Row, Statement, Transaction};
use crate::config::{category_name, category_named, lowercase, Category};
use crate::text::{chars_of, is_white, same_text, trim, trim_end, trim_start};
use crate::dates::{iso, iso_date_read, iso_text, month_key, month_key_text, Date};

verus! {

#[verifier::external_type_specification]
#[verifier::external_body]
pub struct ExConnection(Connection);

#[verifier::external_type_specification]
#[verifier::external_body]
pub struct ExSqliteError(rusqlite::Error);

#[verifier::external_type_specification]
#[verifier::external_body]
pub struct ExTransaction<'conn>(Transaction<'conn>);

#[verifier::external_type_specification]
#[verifier::external_body]
pub struct ExStatement<'conn>(Statement<'conn>);

#[verifier::external_type_specification]
#[verifier::external_body]
pub struct ExRow<'stmt>(Row<'stmt>);

/// The table and its indexes, created when missing.
pub const SCHEMA: &'static str = "
CREATE TABLE IF NOT EXISTS expenses (
  id          INTEGER PRIMARY KEY AUTOINCREMENT,
  amount      INTEGER NOT NULL,
  category    TEXT    NOT NULL,
  description TEXT    NOT NULL DEFAULT '',
  local_date  TEXT    NOT NULL,
  week_start  TEXT    NOT NULL,
  created_at  INTEGER NOT NULL,
  raw         TEXT    NOT NULL
);
CREATE INDEX IF NOT EXISTS idx_expenses_local_date ON expenses(local_date);
CREATE INDEX IF NOT EXISTS idx_expenses_week ON expenses(week_start, category);
";

/// Turns on write-ahead logging; the answer is the mode in force.
pub const JOURNAL_WAL_SQL: &'static str = "PRAGMA journal_mode = WAL";

/// The week's total of one category, before the new expense.
pub const WEEK_TOTAL_SQL: &'static str =
    "SELECT COALESCE(SUM(amount), 0) FROM expenses WHERE week_start = ?1 AND category = ?2";

/// The insert of one expense.
pub const INSERT_SQL: &'static str = "INSERT INTO expenses
               (amount, category, description, local_date, week_start, created_at, raw)
             VALUES (?1, ?2, ?3, ?4, ?5, ?6, ?7)";

/// The month's total over all categories.
pub const MONTH_TOTAL_SQL: &'static str =
    "SELECT COALESCE(SUM(amount), 0) FROM expenses WHERE substr(local_date, 1, 7) = ?1";

/// Per-category totals of one day, largest first.
pub const DAY_TOTALS_SQL: &'static str = "SELECT category, SUM(amount) FROM expenses
             WHERE local_date = ?1 GROUP BY category ORDER BY SUM(amount) DESC";

/// Per-category totals of one week, largest first.
pub const WEEK_TOTALS_SQL: &'static str = "SELECT category, SUM(amount) FROM expenses
             WHERE week_start = ?1 GROUP BY category ORDER BY SUM(amount) DESC";

/// Per-category totals of one month, largest first.
pub const MONTH_TOTALS_SQL: &'static str = "SELECT category, SUM(amount) FROM expenses
             WHERE substr(local_date, 1, 7) = ?1 GROUP BY category ORDER BY SUM(amount) DESC";

/// The newest rows, at most `?1` of them.
pub const RECENT_SQL: &'static str =
    "SELECT id, amount, category, description, local_date FROM expenses ORDER BY id DESC LIMIT ?1";

/// A month's rows, oldest first.
pub const MONTH_ROWS_SQL: &'static str = "SELECT id, amount, category, description, local_date FROM expenses
             WHERE substr(local_date, 1, 7) = ?1 ORDER BY id";

/// The largest id, or NULL when the table is empty.
pub const MAX_ID_SQL: &'static str = "SELECT MAX(id) FROM expenses";

/// The row with one id.
pub const ROW_BY_ID_SQL: &'static str =
    "SELECT id, amount, category, description, local_date FROM expenses WHERE id = ?1";

/// The deletion of the row with one id.
pub const DELETE_SQL: &'static str = "DELETE FROM expenses WHERE id = ?1";

/// A value bound to a statement parameter.
pub enum SqlValue {
    Int(int),
    Text(Seq<char>),
}

/// One thing handed to SQLite.
pub enum SqlCall {
    /// A statement with its parameters, in order.
    Statement { sql: Seq<char>, args: Seq<SqlValue> },
    /// `PRAGMA name = value`.
    Pragma { name: Seq<char>, value: Seq<char> },
    /// A script of statements without parameters.
    Batch(Seq<char>),
    /// The start of a transaction.
    Begin,
    /// The commit of the transaction.
    Commit,
}

pub open spec fn statement(sql: &str, args: Seq<SqlValue>) -> SqlCall {
    SqlCall::Statement { sql: sql@, args }
}

/// What opening a store hands to SQLite: WAL mode, full syncs, the schema.
pub open spec fn open_calls() -> Seq<SqlCall> {
    seq![
        statement(JOURNAL_WAL_SQL, seq![]),
        SqlCall::Pragma { name: "synchronous"@, value: "FULL"@ },
        SqlCall::Batch(SCHEMA@),
    ]
}

/// The parameters of the insert of `e`, in the order of its columns.
pub open spec fn insert_args(e: NewExpense) -> Seq<SqlValue> {
    seq![
        SqlValue::Int(e.amount as int),
        SqlValue::Text(category_name(e.category)),
        SqlValue::Text(e.description@),
        SqlValue::Text(iso_text(e.local_date)),
        SqlValue::Text(iso_text(e.week_start)),
        SqlValue::Int(e.created_at_ms as int),
        SqlValue::Text(e.raw@),
    ]
}

/// What storing `e` hands to SQLite, in one transaction: the week's total of
/// its category before it, the insert, the month's total after it.
pub open spec fn add_calls(e: NewExpense) -> Seq<SqlCall> {
    seq![
        SqlCall::Begin,
        statement(WEEK_TOTAL_SQL, seq![SqlValue::Text(iso_text(e.week_start)), SqlValue::Text(category_name(e.category))]),
        statement(INSERT_SQL, insert_args(e)),
        statement(MONTH_TOTAL_SQL, seq![SqlValue::Text(month_key_text(e.local_date))]),
        SqlCall::Commit,
    ]
}

/// What deleting the row `id` hands to SQLite: the read of the row, its
/// deletion when it was `found`, and the commit.
pub open spec fn delete_calls(id: int, found: bool) -> Seq<SqlCall> {
    if found {
        seq![
            SqlCall::Begin,
            statement(ROW_BY_ID_SQL, seq![SqlValue::Int(id)]),
            statement(DELETE_SQL, seq![SqlValue::Int(id)]),
            SqlCall::Commit,
        ]
    } else {
        seq![SqlCall::Begin, statement(ROW_BY_ID_SQL, seq![SqlValue::Int(id)]), SqlCall::Commit]
    }
}

/// `after` is `before` followed by the first calls of `full`: a failure stops
/// partway, and nothing else is handed over.
pub open spec fn logged_prefix(before: Seq<SqlCall>, after: Seq<SqlCall>, full: Seq<SqlCall>) -> bool {
    &&& before.len() <= after.len() <= before.len() + full.len()
    &&& after == before + full.take(after.len() - before.len())
}

/// What can go wrong while storing, reading or answering.
#[derive(Debug)]
pub enum BotError {
    /// SQLite refused or failed a statement.
    Sqlite(rusqlite::Error),
    /// A stored `local_date` that does not read as a `YYYY-MM-DD` date.
    BadStoredDate(String),
    /// A weekly total that does not fit an `i64`.
    Overflow,
    /// An instant whose Buenos Aires date chrono cannot represent.
    ClockOutOfRange,
}

/// The store: one SQLite connection holding the `expenses` table.
pub struct Db {
    conn: Connection,
    journal_mode: String,
    requests: Ghost<Seq<StoreRequest>>,
    sql_calls: Ghost<Seq<SqlCall>>,
    answers: Ghost<Seq<StoreAnswer>>,
}

/// What the store answered a successful request with.
pub enum StoreAnswer {
    /// The outcome of storing an expense.
    Added(AddOutcome),
    /// Per-category totals.
    Totals(Seq<CategoryTotal>),
    /// Rows, in the order the store gave them.
    Rows(Seq<ExpenseRow>),
    /// The row deleted, or `None` when there was none.
    Deleted(Option<ExpenseRow>),
}

/// What the library has asked the store to do, one entry per call.
pub enum StoreRequest {
    /// Write this expense and read the totals around it.
    Add {
        amount: int,
        category: Category,
        description: Seq<char>,
        raw: Seq<char>,
        local_date: Date,
        week_start: Date,
        created_at_ms: int,
    },
    /// Per-category totals of one day.
    TotalsForDay(Date),
    /// Per-category totals of the week starting on this Monday.
    TotalsForWeek(Date),
    /// Per-category totals of the month with this `YYYY-MM` key.
    TotalsForMonth(Seq<char>),
    /// At most this many of the newest rows.
    Recent(int),
    /// The rows of the month with this `YYYY-MM` key.
    RowsForMonth(Seq<char>),
    /// Delete the row with the largest id.
    DeleteLast,
    /// Delete the row with this id.
    Delete(int),
}

/// The request to store `e`.
pub open spec fn request_of(e: NewExpense) -> StoreRequest {
    StoreRequest::Add {
        amount: e.amount as int,
        category: e.category,
        description: e.description@,
        raw: e.raw@,
        local_date: e.local_date,
        week_start: e.week_start,
        created_at_ms: e.created_at_ms as int,
    }
}


/// A row about to be written. `local_date` and `week_start` are computed by the
/// caller in Buenos Aires time so no query ever has to do timezone math.
#[derive(Debug, Clone)]
pub struct NewExpense<'a> {
    pub amount: i64,
    pub category: Category,
    pub description: &'a str,
    pub raw: &'a str,
    pub local_date: Date,
    pub week_start: Date,
    pub created_at_ms: i64,
}

/// Everything the reply needs, read inside the same transaction as the insert.
/// `week_before`/`week_after` straddle this expense, which is what makes the
/// limit alert fire exactly once without storing a "warned" flag.
#[derive(Debug, Clone, Copy, PartialEq, Eq, Structural)]
pub struct AddOutcome {
    pub id: i64,
    pub month_total: i64,
    pub week_before: i64,
    pub week_after: i64,
}

#[derive(Debug, Clone, Copy, PartialEq, Eq, Structural)]
pub struct CategoryTotal {
    pub category: Category,
    pub total: i64,
}

#[derive(Debug, Clone, PartialEq, Eq)]
pub struct ExpenseRow {
    pub id: i64,
    pub amount: i64,
    pub category: Category,
    pub description: String,
    pub local_date: Date,
}

/// A row of `expenses` as SQLite returns it, before its category and date are read.
#[derive(Debug, Clone, PartialEq, Eq)]
pub struct StoredExpense {
    pub id: i64,
    pub amount: i64,
    pub category: String,
    pub description: String,
    pub local_date: String,
}

/// `Connection::open`. Nothing is stated of the result: whether a file opens
/// rests on the file system and SQLite.
#[verifier::external_body]
fn sqlite_open(path: &str) -> (r: Result<Connection, rusqlite::Error>) {
    Connection::open(path)
}

/// `Connection::open_in_memory`. Nothing is stated of the result.
#[verifier::external_body]
fn sqlite_open_in_memory() -> (r: Result<Connection, rusqlite::Error>) {
    Connection::open_in_memory()
}

/// `Connection::execute_batch`. Nothing is stated of the result or of what
/// the statements do: that is SQL, run by SQLite.
#[verifier::external_body]
fn sqlite_execute_batch(conn: &Connection, sql: &str) -> (r: Result<(), rusqlite::Error>) {
    conn.execute_batch(sql)
}

/// `Connection::pragma_update` on the main schema. Nothing is stated of the
/// result.
#[verifier::external_body]
fn sqlite_pragma_update(conn: &Connection, name: &str, value: &str) -> (r: Result<(), rusqlite::Error>) {
    conn.pragma_update(None, name, value)
}

/// `Connection::query_row`. Nothing is stated of the result: which row comes
/// back rests on the database.
#[verifier::external_body]
fn sqlite_query_row<T, P: rusqlite::Params, F: FnOnce(&Row<'_>) -> Result<T, rusqlite::Error>>(
    conn: &Connection,
    sql: &str,
    params: P,
    f: F,
) -> (r: Result<T, rusqlite::Error>) {
    conn.query_row(sql, params, f)
}

/// `OptionalExtension::optional` on the read of one stored row: a row `v`
/// becomes `Ok(Some(v))`; an error stays an error, except the no-rows error,
/// which becomes `Ok(None)`. Which errors are the no-rows one is not stated,
/// since the error is opaque here.
#[verifier::external_body]
fn sqlite_optional(read: Result<StoredExpense, rusqlite::Error>) -> (found: Result<Option<StoredExpense>, rusqlite::Error>)
    ensures
        found matches Ok(Some(_)) ==> read == Ok::<StoredExpense, rusqlite::Error>(found->Ok_0->Some_0),
        found matches Ok(None) ==> read is Err,
        found is Err ==> read is Err,
{
    read.optional()
}

/// `Connection::execute`. Nothing is stated of the result or of the change
/// to the database.
#[verifier::external_body]
fn sqlite_execute<P: rusqlite::Params>(conn: &Connection, sql: &str, params: P) -> (r: Result<usize, rusqlite::Error>) {
    conn.execute(sql, params)
}

/// `Connection::last_insert_rowid`. Nothing is stated of the id.
#[verifier::external_body]
fn sqlite_last_insert_rowid(conn: &Connection) -> (id: i64) {
    conn.last_insert_rowid()
}

/// `Connection::transaction`. Nothing is stated of the result.
#[verifier::external_body]
fn sqlite_transaction(conn: &mut Connection) -> (r: Result<Transaction<'_>, rusqlite::Error>) {
    conn.transaction()
}

/// `Transaction` dereferenced to its `Connection`. Nothing is stated.
#[verifier::external_body]
fn sqlite_tx_connection<'a>(tx: &'a Transaction<'_>) -> (c: &'a Connection) {
    tx
}

/// `Transaction::commit`. Nothing is stated of the result.
#[verifier::external_body]
fn sqlite_commit(tx: Transaction<'_>) -> (r: Result<(), rusqlite::Error>) {
    tx.commit()
}

/// `Connection::prepare`. Nothing is stated of the result.
#[verifier::external_body]
fn sqlite_prepare<'c>(conn: &'c Connection, sql: &str) -> (r: Result<Statement<'c>, rusqlite::Error>) {
    conn.prepare(sql)
}

/// `Statement::query_map`, its rows gathered into a vector (the first failing
/// row ends it with that error). Nothing is stated of which rows come back.
#[verifier::external_body]
fn sqlite_query_map<T, P: rusqlite::Params, F: FnMut(&Row<'_>) -> Result<T, rusqlite::Error>>(
    statement: &mut Statement<'_>,
    params: P,
    f: F,
) -> (r: Result<Vec<T>, rusqlite::Error>) {
    statement.query_map(params, f)?.collect()
}

/// `Row::get` of an integer column. Nothing is stated of the value.
#[verifier::external_body]
fn sqlite_column_i64(row: &Row<'_>, index: usize) -> (r: Result<i64, rusqlite::Error>) {
    row.get(index)
}

/// `Row::get` of an integer column that may be NULL. Nothing is stated of the
/// value.
#[verifier::external_body]
fn sqlite_column_opt_i64(row: &Row<'_>, index: usize) -> (r: Result<Option<i64>, rusqlite::Error>) {
    row.get(index)
}

/// `Row::get` of a text column. Nothing is stated of the value.
#[verifier::external_body]
fn sqlite_column_text(row: &Row<'_>, index: usize) -> (r: Result<String, rusqlite::Error>) {
    row.get(index)
}

fn first_i64(row: &Row<'_>) -> (r: Result<i64, rusqlite::Error>) {
    sqlite_column_i64(row, 0)
}

fn first_opt_i64(row: &Row<'_>) -> (r: Result<Option<i64>, rusqlite::Error>) {
    sqlite_column_opt_i64(row, 0)
}

fn first_text(row: &Row<'_>) -> (r: Result<String, rusqlite::Error>) {
    sqlite_column_text(row, 0)
}

fn read_total(row: &Row<'_>) -> (r: Result<(String, i64), rusqlite::Error>) {
    let stored = match sqlite_column_text(row, 0) {
        Ok(s) => s,
        Err(e) => return Err(e),
    };
    match sqlite_column_i64(row, 1) {
        Ok(total) => Ok((stored, total)),
        Err(e) => Err(e),
    }
}

fn read_expense(row: &Row<'_>) -> (r: Result<StoredExpense, rusqlite::Error>) {
    let id = match sqlite_column_i64(row, 0) {
        Ok(v) => v,
        Err(e) => return Err(e),
    };
    let amount = match sqlite_column_i64(row, 1) {
        Ok(v) => v,
        Err(e) => return Err(e),
    };
    let category = match sqlite_column_text(row, 2) {
        Ok(v) => v,
        Err(e) => return Err(e),
    };
    let description = match sqlite_column_text(row, 3) {
        Ok(v) => v,
        Err(e) => return Err(e),
    };
    let local_date = match sqlite_column_text(row, 4) {
        Ok(v) => v,
        Err(e) => return Err(e),
    };
    Ok(StoredExpense { id, amount, category, description, local_date })
}

/// The category a stored `category` column names.
pub open spec fn stored_category_of(text: Seq<char>) -> Category {
    match category_named(text) {
        Some(c) => c,
        None => Category::Otros,
    }
}

/// Every name that `Category::as_str` writes into the `category` column
/// reads back as the same category, as far as `str::to_lowercase` leaves the
/// canonical name unchanged.
pub proof fn law_stored_category_reads_back(c: Category)
    ensures
        lowercase(category_name(c)) == category_name(c) ==> stored_category_of(category_name(c)) == c,
{
    crate::config::law_category_name_reads_back(c, category_name(c));
    lemma_names_are_trimmed(c);
}

proof fn lemma_names_are_trimmed(c: Category)
    ensures
        trim(category_name(c)) == category_name(c),
{
    crate::config::lemma_category_literals();
    let n = category_name(c);
    assert(n.len() > 0 && !is_white(n[0]));
    assert(trim_start(n) == n);
    assert(!is_white(n.last()));
    assert(trim_end(n) == n);
}

/// Only `Category::as_str` ever writes this column, so the parse always
/// succeeds; the fallback keeps a hand-edited row from breaking a whole report.
pub fn stored_category(text: &str) -> (c: Category)
    ensures
        c == stored_category_of(text@),
{
    match Category::from_str(text) {
        Ok(c) => c,
        Err(_) => Category::Otros,
    }
}

/// Per-category totals from the `(category, sum)` pairs a grouped query returns.
pub fn category_totals(rows: Vec<(String, i64)>) -> (r: Vec<CategoryTotal>)
    ensures
        r@.len() == rows@.len(),
        forall|i: int| 0 <= i < rows@.len() ==> #[trigger] r@[i] == (CategoryTotal {
            category: stored_category_of(rows@[i].0@),
            total: rows@[i].1,
        }),
{
    let mut r: Vec<CategoryTotal> = Vec::new();
    let mut i: usize = 0;
    while i < rows.len()
        invariant
            i <= rows@.len(),
            r@.len() == i,
            forall|k: int| 0 <= k < i ==> #[trigger] r@[k] == (CategoryTotal {
                category: stored_category_of(rows@[k].0@),
                total: rows@[k].1,
            }),
        decreases rows.len() - i,
    {
        let category = stored_category(rows[i].0.as_str());
        r.push(CategoryTotal { category, total: rows[i].1 });
        i += 1;
    }
    r
}

/// The row a stored expense describes, with its category and date read.
pub fn expense_row(stored: &StoredExpense) -> (r: Result<ExpenseRow, BotError>)
    ensures
        match iso_date_read(stored.local_date@) {
            Some((y, m, d)) => r matches Ok(row) && row.id == stored.id && row.amount == stored.amount
                && row.category == stored_category_of(stored.category@)
                && row.description@ == stored.description@
                && row.local_date == (Date { year: y, month: m, day: d })
                && row.local_date.is_representable(),
            None => r matches Err(BotError::BadStoredDate(text)) && text@ == stored.local_date@,
        },
{
    let category = stored_category(stored.category.as_str());
    match Date::parse_iso(stored.local_date.as_str()) {
        Some(local_date) => Ok(ExpenseRow {
            id: stored.id,
            amount: stored.amount,
            category,
            description: stored.description.clone(),
            local_date,
        }),
        None => Err(BotError::BadStoredDate(stored.local_date.clone())),
    }
}

/// The rows of several stored expenses, in the same order; the first date
/// that does not read fails the whole list.
pub fn expense_rows(stored: Vec<StoredExpense>) -> (r: Result<Vec<ExpenseRow>, BotError>)
    ensures
        r matches Ok(rows) ==> rows@.len() == stored@.len() && forall|i: int| 0 <= i < rows@.len() ==> {
            let s = #[trigger] stored@[i];
            let row = rows@[i];
            &&& iso_date_read(s.local_date@) == Some((row.local_date.year, row.local_date.month, row.local_date.day))
            &&& row.id == s.id && row.amount == s.amount
            &&& row.category == stored_category_of(s.category@)
            &&& row.description@ == s.description@
            &&& row.local_date.is_representable()
        },
        r matches Ok(rows) ==> forall|i: int| 0 <= i < rows@.len() ==> (#[trigger] rows@[i]).local_date.is_representable(),
        r is Err <==> exists|i: int| 0 <= i < stored@.len() && iso_date_read(#[trigger] stored@[i].local_date@) is None,
        r is Err ==> r matches Err(BotError::BadStoredDate(_)),
{
    let mut rows: Vec<ExpenseRow> = Vec::new();
    let mut i: usize = 0;
    while i < stored.len()
        invariant
            i <= stored@.len(),
            rows@.len() == i,
            forall|k: int| 0 <= k < i ==> (#[trigger] rows@[k]).local_date.is_representable(),
            forall|k: int| 0 <= k < i ==> iso_date_read(#[trigger] stored@[k].local_date@) is Some,
            forall|k: int| 0 <= k < i ==> {
                let s = #[trigger] stored@[k];
                let row = rows@[k];
                &&& iso_date_read(s.local_date@) == Some((row.local_date.year, row.local_date.month, row.local_date.day))
                &&& row.id == s.id && row.amount == s.amount
                &&& row.category == stored_category_of(s.category@)
                &&& row.description@ == s.description@
                &&& row.local_date.is_representable()
            },
        decreases stored.len() - i,
    {
        match expense_row(&stored[i]) {
            Ok(row) => rows.push(row),
            Err(e) => return Err(e),
        }
        i += 1;
    }
    Ok(rows)
}


fn sqlite<T>(r: Result<T, rusqlite::Error>) -> (o: Result<T, BotError>)
    ensures
        r matches Ok(v) ==> o == Ok::<T, BotError>(v),
        r is Err ==> o matches Err(BotError::Sqlite(_)),
{
    match r {
        Ok(v) => Ok(v),
        Err(e) => Err(BotError::Sqlite(e)),
    }
}

/// The outcome of storing an expense of `amount`, given the new row's id, the
/// month total and the week total before it: `None` when the week total after
/// it does not fit an `i64`.
pub open spec fn outcome_of(id: i64, month_total: i64, week_before: i64, amount: i64) -> Option<AddOutcome> {
    if i64::MIN <= week_before + amount <= i64::MAX {
        Some(AddOutcome { id, month_total, week_before, week_after: (week_before + amount) as i64 })
    } else {
        None
    }
}

/// The outcome of storing an expense, from what the store read around the
/// insert; an overflowing week total is an error.
pub fn add_outcome(id: i64, month_total: i64, week_before: i64, amount: i64) -> (r: Result<AddOutcome, BotError>)
    ensures
        match outcome_of(id, month_total, week_before, amount) {
            Some(o) => r == Ok::<AddOutcome, BotError>(o),
            None => r matches Err(BotError::Overflow),
        },
{
    match week_before.checked_add(amount) {
        Some(week_after) => Ok(AddOutcome { id, month_total, week_before, week_after }),
        None => Err(BotError::Overflow),
    }
}

/// Each character with ASCII letters lower-cased.
pub open spec fn ascii_lower(s: Seq<char>) -> Seq<char> {
    s.map_values(|c: char| if 'A' <= c && c <= 'Z' { ((c as int) + 32) as char } else { c })
}

/// The journal modes the store is meant to run in: `wal` on a file, `memory`
/// for an in-memory database, in any ASCII case.
pub open spec fn journal_mode_expected(mode: Seq<char>) -> bool {
    ascii_lower(mode) == "wal"@ || ascii_lower(mode) == "memory"@
}

fn push_ascii_lower(out: &mut Vec<char>, v: &Vec<char>)
    ensures
        final(out)@ == old(out)@ + ascii_lower(v@),
{
    let ghost before = out@;
    let mut i: usize = 0;
    while i < v.len()
        invariant
            i <= v.len(),
            out@ == before + ascii_lower(v@.take(i as int)),
        decreases v.len() - i,
    {
        let c = v[i];
        let l = if 'A' <= c && c <= 'Z' { ((c as u32 + 32) as u8) as char } else { c };
        out.push(l);
        assert(ascii_lower(v@.take(i + 1)) =~= ascii_lower(v@.take(i as int)).push(l));
        i += 1;
    }
    assert(v@.take(v.len() as int) =~= v@);
}

/// Whether SQLite reported one of the expected journal modes.
pub fn is_expected_journal_mode(mode: &str) -> (b: bool)
    ensures
        b == journal_mode_expected(mode@),
{
    let mut lower: Vec<char> = Vec::new();
    push_ascii_lower(&mut lower, &chars_of(mode));
    assert(lower@ =~= ascii_lower(mode@));
    same_text(&lower, "wal") || same_text(&lower, "memory")
}

/// The parameters of the insert of `e`, in the order of its columns: amount,
/// category, description, day, week start, creation time, raw text.
fn insert_params<'a>(e: &'a NewExpense<'a>) -> (p: (i64, &'static str, &'a str, String, String, i64, &'a str))
    requires
        e.local_date.is_calendar(),
        e.week_start.is_calendar(),
    ensures
        p.0 == e.amount,
        p.1@ == category_name(e.category),
        p.2@ == e.description@,
        p.3@ == iso_text(e.local_date),
        p.4@ == iso_text(e.week_start),
        p.5 == e.created_at_ms,
        p.6@ == e.raw@,
{
    (e.amount, e.category.as_str(), e.description, iso(e.local_date), iso(e.week_start), e.created_at_ms, e.raw)
}

/// The parameters of the week-total query of `e`: its week start and category.
fn week_total_params(e: &NewExpense<'_>) -> (p: (String, &'static str))
    requires
        e.week_start.is_calendar(),
    ensures
        p.0@ == iso_text(e.week_start),
        p.1@ == category_name(e.category),
{
    (iso(e.week_start), e.category.as_str())
}

/// The parameter of the month-total query of `e`: its month key.
fn month_total_params(e: &NewExpense<'_>) -> (p: (String,))
    requires
        e.local_date.is_calendar(),
    ensures
        p.0@ == month_key_text(e.local_date),
{
    (month_key(e.local_date),)
}

fn logged_query_text(conn: &Connection, log: &mut Ghost<Seq<SqlCall>>, sql: &'static str) -> (r: Result<
    String,
    rusqlite::Error,
>)
    ensures
        final(log)@ == old(log)@.push(statement(sql, seq![])),
{
    *log = Ghost(log@.push(statement(sql, seq![])));
    sqlite_query_row(conn, sql, (), first_text)
}

fn logged_pragma(conn: &Connection, log: &mut Ghost<Seq<SqlCall>>, name: &'static str, value: &'static str) -> (r: Result<
    (),
    rusqlite::Error,
>)
    ensures
        final(log)@ == old(log)@.push(SqlCall::Pragma { name: name@, value: value@ }),
{
    *log = Ghost(log@.push(SqlCall::Pragma { name: name@, value: value@ }));
    sqlite_pragma_update(conn, name, value)
}

fn logged_batch(conn: &Connection, log: &mut Ghost<Seq<SqlCall>>, sql: &'static str) -> (r: Result<(), rusqlite::Error>)
    ensures
        final(log)@ == old(log)@.push(SqlCall::Batch(sql@)),
{
    *log = Ghost(log@.push(SqlCall::Batch(sql@)));
    sqlite_execute_batch(conn, sql)
}

fn logged_begin<'c>(conn: &'c mut Connection, log: &mut Ghost<Seq<SqlCall>>) -> (r: Result<
    Transaction<'c>,
    rusqlite::Error,
>)
    ensures
        final(log)@ == old(log)@.push(SqlCall::Begin),
{
    *log = Ghost(log@.push(SqlCall::Begin));
    sqlite_transaction(conn)
}

fn logged_commit(tx: Transaction<'_>, log: &mut Ghost<Seq<SqlCall>>) -> (r: Result<(), rusqlite::Error>)
    ensures
        final(log)@ == old(log)@.push(SqlCall::Commit),
{
    *log = Ghost(log@.push(SqlCall::Commit));
    sqlite_commit(tx)
}

fn logged_week_total(conn: &Connection, log: &mut Ghost<Seq<SqlCall>>, e: &NewExpense<'_>) -> (r: Result<
    i64,
    rusqlite::Error,
>)
    requires
        e.week_start.is_calendar(),
    ensures
        final(log)@ == old(log)@.push(add_calls(*e)[1]),
{
    let params = week_total_params(e);
    *log = Ghost(log@.push(statement(WEEK_TOTAL_SQL, seq![SqlValue::Text(params.0@), SqlValue::Text(params.1@)])));
    sqlite_query_row(conn, WEEK_TOTAL_SQL, params, first_i64)
}

fn logged_insert(conn: &Connection, log: &mut Ghost<Seq<SqlCall>>, e: &NewExpense<'_>) -> (r: Result<
    usize,
    rusqlite::Error,
>)
    requires
        e.local_date.is_calendar(),
        e.week_start.is_calendar(),
    ensures
        final(log)@ == old(log)@.push(add_calls(*e)[2]),
{
    let params = insert_params(e);
    *log = Ghost(log@.push(statement(INSERT_SQL, insert_args(*e))));
    sqlite_execute(conn, INSERT_SQL, params)
}

fn logged_month_total(conn: &Connection, log: &mut Ghost<Seq<SqlCall>>, e: &NewExpense<'_>) -> (r: Result<
    i64,
    rusqlite::Error,
>)
    requires
        e.local_date.is_calendar(),
    ensures
        final(log)@ == old(log)@.push(add_calls(*e)[3]),
{
    let params = month_total_params(e);
    *log = Ghost(log@.push(statement(MONTH_TOTAL_SQL, seq![SqlValue::Text(params.0@)])));
    sqlite_query_row(conn, MONTH_TOTAL_SQL, params, first_i64)
}

fn logged_totals(conn: &Connection, log: &mut Ghost<Seq<SqlCall>>, sql: &'static str, key: &str) -> (r: Result<
    Vec<(String, i64)>,
    rusqlite::Error,
>)
    ensures
        final(log)@ == old(log)@.push(statement(sql, seq![SqlValue::Text(key@)])),
{
    *log = Ghost(log@.push(statement(sql, seq![SqlValue::Text(key@)])));
    let mut prepared = match sqlite_prepare(conn, sql) {
        Ok(p) => p,
        Err(e) => return Err(e),
    };
    sqlite_query_map(&mut prepared, (key,), read_total)
}

fn logged_rows_by_text(conn: &Connection, log: &mut Ghost<Seq<SqlCall>>, sql: &'static str, key: &str) -> (r: Result<
    Vec<StoredExpense>,
    rusqlite::Error,
>)
    ensures
        final(log)@ == old(log)@.push(statement(sql, seq![SqlValue::Text(key@)])),
{
    *log = Ghost(log@.push(statement(sql, seq![SqlValue::Text(key@)])));
    let mut prepared = match sqlite_prepare(conn, sql) {
        Ok(p) => p,
        Err(e) => return Err(e),
    };
    sqlite_query_map(&mut prepared, (key,), read_expense)
}

fn logged_rows_by_count(conn: &Connection, log: &mut Ghost<Seq<SqlCall>>, sql: &'static str, n: u32) -> (r: Result<
    Vec<StoredExpense>,
    rusqlite::Error,
>)
    ensures
        final(log)@ == old(log)@.push(statement(sql, seq![SqlValue::Int(n as int)])),
{
    *log = Ghost(log@.push(statement(sql, seq![SqlValue::Int(n as int)])));
    let mut prepared = match sqlite_prepare(conn, sql) {
        Ok(p) => p,
        Err(e) => return Err(e),
    };
    sqlite_query_map(&mut prepared, (n,), read_expense)
}

fn logged_max_id(conn: &Connection, log: &mut Ghost<Seq<SqlCall>>) -> (r: Result<Option<i64>, rusqlite::Error>)
    ensures
        final(log)@ == old(log)@.push(statement(MAX_ID_SQL, seq![])),
{
    *log = Ghost(log@.push(statement(MAX_ID_SQL, seq![])));
    sqlite_query_row(conn, MAX_ID_SQL, (), first_opt_i64)
}

fn logged_row_by_id(conn: &Connection, log: &mut Ghost<Seq<SqlCall>>, id: i64) -> (r: Result<
    Option<StoredExpense>,
    rusqlite::Error,
>)
    ensures
        final(log)@ == old(log)@.push(statement(ROW_BY_ID_SQL, seq![SqlValue::Int(id as int)])),
{
    *log = Ghost(log@.push(statement(ROW_BY_ID_SQL, seq![SqlValue::Int(id as int)])));
    sqlite_optional(sqlite_query_row(conn, ROW_BY_ID_SQL, (id,), read_expense))
}

fn logged_delete(conn: &Connection, log: &mut Ghost<Seq<SqlCall>>, id: i64) -> (r: Result<usize, rusqlite::Error>)
    ensures
        final(log)@ == old(log)@.push(statement(DELETE_SQL, seq![SqlValue::Int(id as int)])),
{
    *log = Ghost(log@.push(statement(DELETE_SQL, seq![SqlValue::Int(id as int)])));
    sqlite_execute(conn, DELETE_SQL, (id,))
}

impl Db {
    /// The journal mode SQLite reported when the store was opened.
    pub closed spec fn journal_mode_text(&self) -> Seq<char> {
        self.journal_mode@
    }

    /// The journal mode SQLite reported when the store was opened; anything
    /// but `wal` (or `memory`) deserves a warning, since durability rests on it.
    pub fn journal_mode(&self) -> (s: &str)
        ensures
            s@ == self.journal_mode_text(),
    {
        self.journal_mode.as_str()
    }

    /// What the store answered each successful request with, oldest first.
    pub closed spec fn answers(&self) -> Seq<StoreAnswer> {
        self.answers@
    }

    /// Every request made of the store since it was opened, oldest first.
    pub closed spec fn requests(&self) -> Seq<StoreRequest> {
        self.requests@
    }

    /// Everything handed to SQLite since the store was opened, oldest first.
    pub closed spec fn sql_calls(&self) -> Seq<SqlCall> {
        self.sql_calls@
    }

    /// Opens (creating if needed) the database file at `path`.
    pub fn open(path: &str) -> (r: Result<Db, BotError>)
        ensures
            r is Err ==> r matches Err(BotError::Sqlite(_)),
            r matches Ok(db) ==> db.requests() == Seq::<StoreRequest>::empty() && db.sql_calls() == open_calls()
                && db.answers() == Seq::<StoreAnswer>::empty(),
    {
        let conn = sqlite(sqlite_open(path))?;
        Self::prepare(conn)
    }

    /// A throwaway database that lives in memory, for tests.
    pub fn open_in_memory() -> (r: Result<Db, BotError>)
        ensures
            r is Err ==> r matches Err(BotError::Sqlite(_)),
            r matches Ok(db) ==> db.requests() == Seq::<StoreRequest>::empty() && db.sql_calls() == open_calls()
                && db.answers() == Seq::<StoreAnswer>::empty(),
    {
        let conn = sqlite(sqlite_open_in_memory())?;
        Self::prepare(conn)
    }

    fn prepare(conn: Connection) -> (r: Result<Db, BotError>)
        ensures
            r is Err ==> r matches Err(BotError::Sqlite(_)),
            r matches Ok(db) ==> db.requests() == Seq::<StoreRequest>::empty() && db.sql_calls() == open_calls()
                && db.answers() == Seq::<StoreAnswer>::empty(),
    {
        let mut log: Ghost<Seq<SqlCall>> = Ghost(Seq::empty());
        // journal_mode returns the resulting mode as a row, so it needs a query
        // rather than pragma_update.
        let journal_mode = sqlite(logged_query_text(&conn, &mut log, JOURNAL_WAL_SQL))?;
        sqlite(logged_pragma(&conn, &mut log, "synchronous", "FULL"))?;
        sqlite(logged_batch(&conn, &mut log, SCHEMA))?;
        assert(log@ =~= open_calls());
        Ok(Db { conn, journal_mode, requests: Ghost(Seq::empty()), sql_calls: log, answers: Ghost(Seq::empty()) })
    }

    /// Stores an expense and reads, in the same transaction, the month total
    /// after it and the week's total for its category before and after it.
    /// A week total that would overflow is found before the commit, so
    /// nothing is stored then.
    pub fn add_expense(&mut self, expense: &NewExpense<'_>) -> (r: Result<AddOutcome, BotError>)
        requires
            expense.local_date.is_calendar(),
            expense.week_start.is_calendar(),
        ensures
            r matches Ok(o) ==> o.week_after == o.week_before + expense.amount,
            r matches Ok(o) ==> outcome_of(o.id, o.month_total, o.week_before, expense.amount) == Some(o),
            r is Err ==> (r matches Err(BotError::Sqlite(_)) || r matches Err(BotError::Overflow)),
            final(self).requests() == old(self).requests().push(request_of(*expense)),
            logged_prefix(old(self).sql_calls(), final(self).sql_calls(), add_calls(*expense)),
            r is Ok ==> final(self).sql_calls() == old(self).sql_calls() + add_calls(*expense),
            r matches Err(BotError::Overflow) ==> final(self).sql_calls() == old(self).sql_calls() + add_calls(
                *expense,
            ).take(4),
            final(self).answers() == (match r {
                Ok(o) => old(self).answers().push(StoreAnswer::Added(o)),
                Err(_) => old(self).answers(),
            }),
    {
        self.requests = Ghost(self.requests@.push(request_of(*expense)));
        let ghost before = self.sql_calls@;
        let ghost full = add_calls(*expense);
        let tx = match logged_begin(&mut self.conn, &mut self.sql_calls) {
            Ok(tx) => tx,
            Err(e) => {
                assert(self.sql_calls@ =~= before + full.take(1));
                return Err(BotError::Sqlite(e));
            },
        };
        assert(self.sql_calls@ =~= before + full.take(1));
        let week_before = match logged_week_total(sqlite_tx_connection(&tx), &mut self.sql_calls, expense) {
            Ok(v) => v,
            Err(e) => {
                assert(self.sql_calls@ =~= before + full.take(2));
                return Err(BotError::Sqlite(e));
            },
        };
        assert(self.sql_calls@ =~= before + full.take(2));
        match logged_insert(sqlite_tx_connection(&tx), &mut self.sql_calls, expense) {
            Ok(_) => {},
            Err(e) => {
                assert(self.sql_calls@ =~= before + full.take(3));
                return Err(BotError::Sqlite(e));
            },
        }
        assert(self.sql_calls@ =~= before + full.take(3));
        let id = sqlite_last_insert_rowid(sqlite_tx_connection(&tx));
        let month_total = match logged_month_total(sqlite_tx_connection(&tx), &mut self.sql_calls, expense) {
            Ok(v) => v,
            Err(e) => {
                assert(self.sql_calls@ =~= before + full.take(4));
                return Err(BotError::Sqlite(e));
            },
        };
        assert(self.sql_calls@ =~= before + full.take(4));
        let outcome = match add_outcome(id, month_total, week_before, expense.amount) {
            Ok(o) => o,
            Err(e) => return Err(e),
        };
        match logged_commit(tx, &mut self.sql_calls) {
            Ok(()) => {},
            Err(e) => {
                assert(self.sql_calls@ =~= before + full.take(5));
                return Err(BotError::Sqlite(e));
            },
        }
        assert(self.sql_calls@ =~= before + full.take(5));
        assert(full.take(5) =~= full);
        self.answers = Ghost(self.answers@.push(StoreAnswer::Added(outcome)));
        Ok(outcome)
    }

    fn totals(&mut self, sql: &'static str, key: &str) -> (r: Result<Vec<CategoryTotal>, BotError>)
        ensures
            r is Err ==> r matches Err(BotError::Sqlite(_)),
            final(self).sql_calls() == old(self).sql_calls().push(statement(sql, seq![SqlValue::Text(key@)])),
            final(self).requests() == old(self).requests(),
            final(self).answers() == (match r {
                Ok(ts) => old(self).answers().push(StoreAnswer::Totals(ts@)),
                Err(_) => old(self).answers(),
            }),
    {
        let rows = sqlite(logged_totals(&self.conn, &mut self.sql_calls, sql, key))?;
        let ts = category_totals(rows);
        self.answers = Ghost(self.answers@.push(StoreAnswer::Totals(ts@)));
        Ok(ts)
    }

    /// Per-category totals of one day, largest first.
    pub fn totals_for_day(&mut self, date: Date) -> (r: Result<Vec<CategoryTotal>, BotError>)
        requires
            date.is_calendar(),
        ensures
            r is Err ==> r matches Err(BotError::Sqlite(_)),
            final(self).requests() == old(self).requests().push(StoreRequest::TotalsForDay(date)),
            final(self).sql_calls() == old(self).sql_calls().push(
                statement(DAY_TOTALS_SQL, seq![SqlValue::Text(iso_text(date))]),
            ),
            final(self).answers() == (match r {
                Ok(ts) => old(self).answers().push(StoreAnswer::Totals(ts@)),
                Err(_) => old(self).answers(),
            }),
    {
        self.requests = Ghost(self.requests@.push(StoreRequest::TotalsForDay(date)));
        self.totals(DAY_TOTALS_SQL, iso(date).as_str())
    }

    /// Per-category totals of the week starting on `week_start`, largest first.
    pub fn totals_for_week(&mut self, week_start: Date) -> (r: Result<Vec<CategoryTotal>, BotError>)
        requires
            week_start.is_calendar(),
        ensures
            r is Err ==> r matches Err(BotError::Sqlite(_)),
            final(self).requests() == old(self).requests().push(StoreRequest::TotalsForWeek(week_start)),
            final(self).sql_calls() == old(self).sql_calls().push(
                statement(WEEK_TOTALS_SQL, seq![SqlValue::Text(iso_text(week_start))]),
            ),
            final(self).answers() == (match r {
                Ok(ts) => old(self).answers().push(StoreAnswer::Totals(ts@)),
                Err(_) => old(self).answers(),
            }),
    {
        self.requests = Ghost(self.requests@.push(StoreRequest::TotalsForWeek(week_start)));
        self.totals(WEEK_TOTALS_SQL, iso(week_start).as_str())
    }

    /// Per-category totals of the month `YYYY-MM`, largest first.
    pub fn totals_for_month(&mut self, month: &str) -> (r: Result<Vec<CategoryTotal>, BotError>)
        ensures
            r is Err ==> r matches Err(BotError::Sqlite(_)),
            final(self).requests() == old(self).requests().push(StoreRequest::TotalsForMonth(month@)),
            final(self).sql_calls() == old(self).sql_calls().push(
                statement(MONTH_TOTALS_SQL, seq![SqlValue::Text(month@)]),
            ),
            final(self).answers() == (match r {
                Ok(ts) => old(self).answers().push(StoreAnswer::Totals(ts@)),
                Err(_) => old(self).answers(),
            }),
    {
        self.requests = Ghost(self.requests@.push(StoreRequest::TotalsForMonth(month@)));
        self.totals(MONTH_TOTALS_SQL, month)
    }

    /// Most recent first, so the ids in the reply match what `/borrar` targets.
    pub fn recent(&mut self, limit: u32) -> (r: Result<Vec<ExpenseRow>, BotError>)
        ensures
            r is Err ==> (r matches Err(BotError::Sqlite(_)) || r matches Err(BotError::BadStoredDate(_))),
            r matches Ok(rows) ==> forall|i: int| 0 <= i < rows@.len() ==> (#[trigger] rows@[i]).local_date.is_representable(),
            final(self).requests() == old(self).requests().push(StoreRequest::Recent(limit as int)),
            final(self).sql_calls() == old(self).sql_calls().push(
                statement(RECENT_SQL, seq![SqlValue::Int(limit as int)]),
            ),
            final(self).answers() == (match r {
                Ok(rows) => old(self).answers().push(StoreAnswer::Rows(rows@)),
                Err(_) => old(self).answers(),
            }),
    {
        self.requests = Ghost(self.requests@.push(StoreRequest::Recent(limit as int)));
        let stored = sqlite(logged_rows_by_count(&self.conn, &mut self.sql_calls, RECENT_SQL, limit))?;
        let r = expense_rows(stored);
        if let Ok(rows) = &r {
            self.answers = Ghost(self.answers@.push(StoreAnswer::Rows(rows@)));
        }
        r
    }

    /// Oldest first: this feeds the CSV export, where chronological order reads
    /// better than the reverse.
    pub fn rows_for_month(&mut self, month: &str) -> (r: Result<Vec<ExpenseRow>, BotError>)
        ensures
            r is Err ==> (r matches Err(BotError::Sqlite(_)) || r matches Err(BotError::BadStoredDate(_))),
            r matches Ok(rows) ==> forall|i: int| 0 <= i < rows@.len() ==> (#[trigger] rows@[i]).local_date.is_representable(),
            final(self).requests() == old(self).requests().push(StoreRequest::RowsForMonth(month@)),
            final(self).sql_calls() == old(self).sql_calls().push(
                statement(MONTH_ROWS_SQL, seq![SqlValue::Text(month@)]),
            ),
            final(self).answers() == (match r {
                Ok(rows) => old(self).answers().push(StoreAnswer::Rows(rows@)),
                Err(_) => old(self).answers(),
            }),
    {
        self.requests = Ghost(self.requests@.push(StoreRequest::RowsForMonth(month@)));
        let stored = sqlite(logged_rows_by_text(&self.conn, &mut self.sql_calls, MONTH_ROWS_SQL, month))?;
        let r = expense_rows(stored);
        if let Ok(rows) = &r {
            self.answers = Ghost(self.answers@.push(StoreAnswer::Rows(rows@)));
        }
        r
    }

    /// Deletes the row with the largest id, returning it.
    pub fn delete_last(&mut self) -> (r: Result<Option<ExpenseRow>, BotError>)
        ensures
            r is Err ==> (r matches Err(BotError::Sqlite(_)) || r matches Err(BotError::BadStoredDate(_))),
            r matches Ok(Some(row)) ==> row.local_date.is_representable(),
            final(self).requests() == old(self).requests().push(StoreRequest::DeleteLast),
            final(self).sql_calls().len() > old(self).sql_calls().len(),
            final(self).sql_calls().take(old(self).sql_calls().len() + 1int) == old(self).sql_calls().push(
                statement(MAX_ID_SQL, seq![]),
            ),
            r matches Ok(Some(_)) ==> exists|id: int| final(self).sql_calls() == #[trigger] old(self).sql_calls().push(
                statement(MAX_ID_SQL, seq![]),
            ) + delete_calls(id, true),
            final(self).answers() == (match r {
                Ok(row) => old(self).answers().push(StoreAnswer::Deleted(row)),
                Err(_) => old(self).answers(),
            }),
    {
        self.requests = Ghost(self.requests@.push(StoreRequest::DeleteLast));
        let ghost before = self.sql_calls@;
        let last = sqlite(logged_max_id(&self.conn, &mut self.sql_calls));
        let ghost mid = self.sql_calls@;
        assert(mid.take(before.len() + 1int) =~= mid);
        let last = match last {
            Ok(v) => v,
            Err(e) => return Err(e),
        };
        match last {
            Some(id) => {
                let r = self.delete_row(id);
                if let Ok(row) = &r {
                    self.answers = Ghost(self.answers@.push(StoreAnswer::Deleted(*row)));
                }
                proof {
                    assert(self.sql_calls@.take(before.len() + 1int) =~= mid);
                    if r matches Ok(Some(_)) {
                        assert(self.sql_calls@ == mid + delete_calls(id as int, true));
                    }
                }
                r
            },
            None => {
                self.answers = Ghost(self.answers@.push(StoreAnswer::Deleted(None)));
                Ok(None)
            },
        }
    }

    /// Deletes the row with this id, returning it, or `None` when there is none.
    pub fn delete(&mut self, id: i64) -> (r: Result<Option<ExpenseRow>, BotError>)
        ensures
            r is Err ==> (r matches Err(BotError::Sqlite(_)) || r matches Err(BotError::BadStoredDate(_))),
            r matches Ok(Some(row)) ==> row.local_date.is_representable(),
            final(self).requests() == old(self).requests().push(StoreRequest::Delete(id as int)),
            r matches Ok(Some(_)) ==> final(self).sql_calls() == old(self).sql_calls() + delete_calls(id as int, true),
            r matches Ok(None) ==> final(self).sql_calls() == old(self).sql_calls() + delete_calls(id as int, false),
            r is Err ==> logged_prefix(old(self).sql_calls(), final(self).sql_calls(), delete_calls(id as int, true))
                || logged_prefix(old(self).sql_calls(), final(self).sql_calls(), delete_calls(id as int, false)),
            final(self).answers() == (match r {
                Ok(row) => old(self).answers().push(StoreAnswer::Deleted(row)),
                Err(_) => old(self).answers(),
            }),
    {
        self.requests = Ghost(self.requests@.push(StoreRequest::Delete(id as int)));
        let r = self.delete_row(id);
        if let Ok(row) = &r {
            self.answers = Ghost(self.answers@.push(StoreAnswer::Deleted(*row)));
        }
        r
    }

    fn delete_row(&mut self, id: i64) -> (r: Result<Option<ExpenseRow>, BotError>)
        ensures
            final(self).answers() == old(self).answers(),
            r is Err ==> (r matches Err(BotError::Sqlite(_)) || r matches Err(BotError::BadStoredDate(_))),
            r matches Ok(Some(row)) ==> row.local_date.is_representable(),
            final(self).requests() == old(self).requests(),
            r matches Ok(Some(_)) ==> final(self).sql_calls() == old(self).sql_calls() + delete_calls(id as int, true),
            r matches Ok(None) ==> final(self).sql_calls() == old(self).sql_calls() + delete_calls(id as int, false),
            r is Err ==> logged_prefix(old(self).sql_calls(), final(self).sql_calls(), delete_calls(id as int, true))
                || logged_prefix(old(self).sql_calls(), final(self).sql_calls(), delete_calls(id as int, false)),
    {
        let ghost before = self.sql_calls@;
        let ghost found = delete_calls(id as int, true);
        let ghost missing = delete_calls(id as int, false);
        let tx = match logged_begin(&mut self.conn, &mut self.sql_calls) {
            Ok(tx) => tx,
            Err(e) => {
                assert(self.sql_calls@ =~= before + found.take(1));
                return Err(BotError::Sqlite(e));
            },
        };
        let stored = match logged_row_by_id(sqlite_tx_connection(&tx), &mut self.sql_calls, id) {
            Ok(s) => s,
            Err(e) => {
                assert(self.sql_calls@ =~= before + found.take(2));
                return Err(BotError::Sqlite(e));
            },
        };
        assert(self.sql_calls@ =~= before + found.take(2));
        assert(found.take(2) =~= missing.take(2));
        let row = match stored {
            Some(s) => match expense_row(&s) {
                Ok(row) => Some(row),
                Err(e) => return Err(e),
            },
            None => None,
        };
        if row.is_some() {
            match logged_delete(sqlite_tx_connection(&tx), &mut self.sql_calls, id) {
                Ok(_) => {},
                Err(e) => {
                    assert(self.sql_calls@ =~= before + found.take(3));
                    return Err(BotError::Sqlite(e));
                },
            }
            assert(self.sql_calls@ =~= before + found.take(3));
            match logged_commit(tx, &mut self.sql_calls) {
                Ok(()) => {},
                Err(e) => {
                    assert(self.sql_calls@ =~= before + found.take(4));
                    return Err(BotError::Sqlite(e));
                },
            }
            assert(self.sql_calls@ =~= before + found);
        } else {
            match logged_commit(tx, &mut self.sql_calls) {
                Ok(()) => {},
                Err(e) => {
                    assert(self.sql_calls@ =~= before + missing.take(3));
                    return Err(BotError::Sqlite(e));
                },
            }
            assert(self.sql_calls@ =~= before + missing);
        }
        Ok(row)
    }
}

} // verus!
