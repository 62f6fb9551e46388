use vstd::prelude::*;
use crate::error::AppError;
use crate::filter::{Filter, FilterView};
use crate::names::{copy_of, names};
use crate::query::{
    ascending, joined, names_for, select, selection, selection_is_admitted,
};
use crate::time::{calendar_moment, timestamp_of, Day, Timestamp};
use crate::command::{Command, Param};
use crate::value::{reads_back, text_is_unreadable, text_reads_otherwise, ScoreValue};
use chrono::NaiveDateTime;
use rusqlite::{params_from_iter, Connection, ToSql};

verus! {

/// The connection type of `rusqlite`. The library hands it to the calls
/// that reach the database and never looks into it.
#[verifier::external_type_specification]
#[verifier::external_body]
pub struct ExDatabaseHandle(rusqlite::Connection);

/// Makes the connection hold tag rows to their scores.
pub const ENFORCE_REFERENCES_SQL: &'static str = "PRAGMA foreign_keys = ON";

/// Creates the relation of scores unless it exists.
pub const SCORE_TABLE_SQL: &'static str =
    "CREATE TABLE IF NOT EXISTS score (id integer primary key asc, created_at default current_timestamp, score TEXT)";

/// Creates the relation of tags unless it exists.
pub const TAG_TABLE_SQL: &'static str =
    "CREATE TABLE IF NOT EXISTS tag (id integer primary key asc, score_id integer references score(id), name TEXT)";

/// Reads every score.
pub const SELECT_SCORES_SQL: &'static str = "SELECT id, score, created_at FROM score ORDER BY id";

/// Reads every tag with the identifier of its score.
pub const SELECT_TAGS_SQL: &'static str = "SELECT score_id, name FROM tag ORDER BY id";

/// Opens a unit of work that is stored whole or not at all.
pub const OPEN_UNIT_SQL: &'static str = "SAVEPOINT score_with_tags";

/// Undoes what the unit of work has done so far.
pub const UNDO_UNIT_SQL: &'static str = "ROLLBACK TO score_with_tags";

/// Closes the unit of work and keeps what it has done.
pub const CLOSE_UNIT_SQL: &'static str = "RELEASE score_with_tags";

/// The name under which a database without a file goes.
pub const IN_MEMORY: &'static str = "IN-MEMORY";

/// An open database and the path it was opened from.
pub struct AppDb {
    pub path: String,
    pub conn: Connection,
}

/// One logged score with its time and its tags.
#[derive(Debug)]
pub struct Score {
    /// The identifier that the store gave the score.
    pub id: usize,
    /// The exact decimal value.
    pub score: ScoreValue,
    /// When the score was logged.
    pub create_date: Timestamp,
    /// The tags of the score as they are stored, repeats included. Their
    /// order carries no meaning.
    pub tags: Vec<String>,
}

/// A score as a mathematical value.
pub struct ScoreView {
    pub id: nat,
    /// Mantissa and scale.
    pub score: (int, nat),
    pub create_date: Timestamp,
    pub tags: Seq<Seq<char>>,
}

impl View for Score {
    type V = ScoreView;

    open spec fn view(&self) -> ScoreView {
        ScoreView {
            id: self.id as nat,
            score: self.score@,
            create_date: self.create_date,
            tags: names(self.tags@),
        }
    }
}

/// A score as the store holds it: its value still as text, its tags not
/// attached.
#[derive(Debug)]
pub struct ScoreRow {
    pub id: usize,
    /// The text stored for the value.
    pub score: String,
    pub create_date: Timestamp,
}

/// A stored score as a mathematical value.
pub struct ScoreRowView {
    pub id: nat,
    pub score: Seq<char>,
    pub create_date: Timestamp,
}

impl View for ScoreRow {
    type V = ScoreRowView;

    open spec fn view(&self) -> ScoreRowView {
        ScoreRowView { id: self.id as nat, score: self.score@, create_date: self.create_date }
    }
}

/// One tag of one score, as the store holds it.
#[derive(Debug)]
pub struct TagRow {
    /// The identifier of the score that the tag belongs to.
    pub score_id: i64,
    pub name: String,
}

/// A stored tag as a mathematical value.
pub struct TagRowView {
    pub score_id: int,
    pub name: Seq<char>,
}

impl View for TagRow {
    type V = TagRowView;

    open spec fn view(&self) -> TagRowView {
        TagRowView { score_id: self.score_id as int, name: self.name@ }
    }
}

/// A stored score together with the names of its tags.
pub struct StoredView {
    pub id: nat,
    pub score: Seq<char>,
    pub create_date: Timestamp,
    pub tags: Seq<Seq<char>>,
}

/// The scores of a list, each as its mathematical value.
pub open spec fn score_views(list: Seq<Score>) -> Seq<ScoreView> {
    Seq::new(list.len(), |i: int| list[i]@)
}

/// The stored scores of a list, each as its mathematical value.
pub open spec fn score_row_views(list: Seq<ScoreRow>) -> Seq<ScoreRowView> {
    Seq::new(list.len(), |i: int| list[i]@)
}

/// The stored tags of a list, each as its mathematical value.
pub open spec fn tag_row_views(list: Seq<TagRow>) -> Seq<TagRowView> {
    Seq::new(list.len(), |i: int| list[i]@)
}

impl AppDb {
    /// A database opened from `path`.
    pub fn new(path: String, conn: Connection) -> (db: Self)
        ensures
            db.path == path,
            db.conn == conn,
    {
        Self { path, conn }
    }

    /// A database that lives in memory only.
    pub fn from_conn(conn: Connection) -> (db: Self)
        ensures
            db.path@ == IN_MEMORY@,
            db.conn == conn,
    {
        Self { path: IN_MEMORY.to_owned(), conn }
    }
}

/// `Connection::open`: opens the database file at `path`, creating it
/// where there is none. Nothing is known of the outcome.
#[verifier::external_body]
fn open_connection(path: &str) -> (r: Result<Connection, rusqlite::Error>) {
    Connection::open(path)
}

/// `Connection::execute` with the values of `params_from_iter`: runs one
/// statement that returns no rows and gives the number of rows it changed.
/// The outcome depends on the database, so nothing is known of it.
#[verifier::external_body]
fn run(conn: &Connection, command: &Command) -> (r: Result<usize, rusqlite::Error>) {
    let values = command.params.iter().map(|param| -> &dyn ToSql {
        match param {
            Param::Text(text) => text,
            Param::Integer(number) => number,
            Param::Moment(moment) => moment,
        }
    });
    conn.execute(command.sql.as_str(), params_from_iter(values))
}

/// `Connection::last_insert_rowid`: the row identifier of the latest
/// successful insertion on this connection.
#[verifier::external_body]
fn last_row_id(conn: &Connection) -> (id: i64) {
    conn.last_insert_rowid()
}

/// `Connection::prepare`, `Statement::query_map` and `Row::get`: the rows
/// of a query without placeholders, each read as an identifier, a text and
/// a date with time. The outcome depends on the database.
#[verifier::external_body]
fn read_score_rows(conn: &Connection, sql: &str) -> (r: Result<
    Vec<(usize, String, NaiveDateTime)>,
    rusqlite::Error,
>) {
    let mut statement = conn.prepare(sql)?;
    let rows = statement.query_map([], |row| Ok((row.get(0)?, row.get(1)?, row.get(2)?)))?;
    rows.collect()
}

/// `Connection::prepare`, `Statement::query_map` and `Row::get`: the rows
/// of a query without placeholders, each read as an integer and a text.
/// The outcome depends on the database.
#[verifier::external_body]
fn read_tag_rows(conn: &Connection, sql: &str) -> (r: Result<Vec<(i64, String)>, rusqlite::Error>) {
    let mut statement = conn.prepare(sql)?;
    let rows = statement.query_map([], |row| Ok((row.get(0)?, row.get(1)?)))?;
    rows.collect()
}

/// Runs a command and turns a failure into a storage error.
fn perform(conn: &Connection, command: &Command) -> (r: Result<usize, AppError>)
    ensures
        r matches Err(e) ==> e is Storage,
{
    AppError::of_storage(run(conn, command))
}

/// Opens the database at `path` and makes sure that its relations exist.
/// Whatever the disk holds, a database that is returned carries `path`,
/// and a failure is a storage error.
pub fn init_db(path: &str) -> (r: Result<AppDb, AppError>)
    ensures
        r matches Ok(db) ==> db.path@ == path@,
        r matches Err(e) ==> e is Storage,
{
    let conn = match AppError::of_storage(open_connection(path)) {
        Ok(conn) => conn,
        Err(e) => {
            return Err(e);
        },
    };
    let db = AppDb::new(path.to_owned(), conn);
    match init_db_tables(&db.conn) {
        Ok(()) => Ok(db),
        Err(e) => Err(e),
    }
}

/// Creates the two relations unless they exist and makes the connection
/// hold tags to their scores. It may be called on every start. A failure
/// is a storage error.
pub fn init_db_tables(conn: &Connection) -> (r: Result<(), AppError>)
    ensures
        r matches Err(e) ==> e is Storage,
{
    match perform(conn, &Command::plain(ENFORCE_REFERENCES_SQL)) {
        Ok(_) => {},
        Err(e) => {
            return Err(e);
        },
    }
    match perform(conn, &Command::plain(SCORE_TABLE_SQL)) {
        Ok(_) => {},
        Err(e) => {
            return Err(e);
        },
    }
    match perform(conn, &Command::plain(TAG_TABLE_SQL)) {
        Ok(_) => Ok(()),
        Err(e) => Err(e),
    }
}

/// Stores a score, stamped by the database with the current time, and then
/// its tags, as one unit of work: where a step fails, what the steps before
/// it stored is taken back.
///
/// A score whose text does not read back as the score is refused. Any
/// other failure is a storage error.
pub fn add_score_and_tags(score: &ScoreValue, tags: &Vec<String>, conn: &Connection) -> (r: Result<
    (),
    AppError,
>)
    ensures
        !reads_back(score@) ==> r is Err,
        r matches Err(e) ==> e is Storage || !reads_back(score@),
{
    match perform(conn, &Command::plain(OPEN_UNIT_SQL)) {
        Ok(_) => {},
        Err(e) => {
            return Err(e);
        },
    }
    match store_score_with_tags(score, tags, conn) {
        Ok(()) => match perform(conn, &Command::plain(CLOSE_UNIT_SQL)) {
            Ok(_) => Ok(()),
            Err(e) => Err(e),
        },
        Err(e) => {
            let _ = perform(conn, &Command::plain(UNDO_UNIT_SQL));
            let _ = perform(conn, &Command::plain(CLOSE_UNIT_SQL));
            Err(e)
        },
    }
}

/// The two steps of storing a score with its tags: the score first, so that
/// the tags can refer to its identifier.
fn store_score_with_tags(score: &ScoreValue, tags: &Vec<String>, conn: &Connection) -> (r: Result<
    (),
    AppError,
>)
    ensures
        !reads_back(score@) ==> r is Err,
        r matches Err(e) ==> e is Storage || !reads_back(score@),
{
    let score_id = match add_score(score, conn) {
        Ok(score_id) => score_id,
        Err(e) => {
            return Err(e);
        },
    };
    if tags.len() > 0 {
        add_tags(tags, score_id, conn)
    } else {
        Ok(())
    }
}

/// Stores a score, stamped by the database with the current time, and
/// gives the identifier of the new row.
///
/// A score whose text does not read back as the score is refused. Any
/// other failure is a storage error.
pub fn add_score(score: &ScoreValue, conn: &Connection) -> (r: Result<i64, AppError>)
    ensures
        !reads_back(score@) ==> r is Err,
        r matches Err(e) ==> e is Storage || !reads_back(score@),
{
    add_score_at(score, None, conn)
}

/// Stores a score with the given time, or with the current time where none
/// is given, and gives the identifier of the new row.
///
/// A time that the calendar cannot hold is a configuration error. A score
/// whose text does not read back as the score is refused: with a decoding
/// error where the text cannot be read, with a configuration error where
/// it reads as another value. In both cases nothing is stored. Any other
/// failure is a storage error.
pub fn add_score_at(score: &ScoreValue, created_at: Option<Timestamp>, conn: &Connection) -> (r:
    Result<i64, AppError>)
    ensures
        !reads_back(score@) ==> r is Err,
        r matches Err(AppError::Configuration(_)) <==> ((created_at matches Some(at)
            && !at.on_calendar()) || text_reads_otherwise(score@)),
        r matches Err(AppError::Decoding(_)) <==> (!(created_at matches Some(at)
            && !at.on_calendar()) && text_is_unreadable(score@)),
{
    let moment = match created_at {
        Some(at) => match calendar_moment(&at) {
            Some(moment) => Some(moment),
            None => {
                return Err(
                    AppError::Configuration("the time of the score is not on the calendar".to_owned()),
                );
            },
        },
        None => None,
    };
    let command = match Command::insert_score(score, moment) {
        Ok(command) => command,
        Err(e) => {
            return Err(e);
        },
    };
    match perform(conn, &command) {
        Ok(_) => Ok(last_row_id(conn)),
        Err(e) => Err(e),
    }
}

/// Stores the tags of the score `score_id`, one row for each, and stops at
/// the first failure. Without tags nothing is run. The connection is first
/// told to hold tags to their scores, so that tags for a score that does
/// not exist are refused by the database. A failure is a storage error.
pub fn add_tags(tags: &Vec<String>, score_id: i64, conn: &Connection) -> (r: Result<(), AppError>)
    ensures
        tags.len() == 0 ==> r is Ok,
        r matches Err(e) ==> e is Storage,
{
    if tags.len() == 0 {
        return Ok(());
    }
    match perform(conn, &Command::plain(ENFORCE_REFERENCES_SQL)) {
        Ok(_) => {},
        Err(e) => {
            return Err(e);
        },
    }
    let commands = Command::insert_tags(tags, score_id);
    let mut i: usize = 0;
    while i < commands.len()
        invariant
            i <= commands.len(),
            tags.len() > 0,
        decreases commands.len() - i,
    {
        match perform(conn, &commands[i]) {
            Ok(_) => {},
            Err(e) => {
                return Err(e);
            },
        }
        i += 1;
    }
    Ok(())
}

/// Reads every score, as stored and in the order of the identifiers. A
/// failure is a storage error.
pub fn score_rows(conn: &Connection) -> (r: Result<Vec<ScoreRow>, AppError>)
    ensures
        r matches Err(e) ==> e is Storage,
{
    match AppError::of_storage(read_score_rows(conn, SELECT_SCORES_SQL)) {
        Ok(raw) => Ok(score_rows_from(raw)),
        Err(e) => Err(e),
    }
}

/// Reads every tag, as stored and in the order of insertion. A failure is
/// a storage error.
pub fn tag_rows(conn: &Connection) -> (r: Result<Vec<TagRow>, AppError>)
    ensures
        r matches Err(e) ==> e is Storage,
{
    match AppError::of_storage(read_tag_rows(conn, SELECT_TAGS_SQL)) {
        Ok(raw) => Ok(tag_rows_from(raw)),
        Err(e) => Err(e),
    }
}

/// Reads the tag names stored for one score, in the order of their
/// insertion. A failure is a storage error.
pub fn tags_for(conn: &Connection, score_id: usize) -> (r: Result<Vec<String>, AppError>)
    ensures
        r matches Err(e) ==> e is Storage,
{
    match tag_rows(conn) {
        Ok(table) => Ok(names_for(&table, score_id)),
        Err(e) => Err(e),
    }
}

/// The filter that the four options of a listing stand for.
pub open spec fn listing_filter(
    filter_tags: Seq<Seq<char>>,
    no_tags: bool,
    start_date: Option<Day>,
    end_date: Option<Day>,
) -> FilterView {
    FilterView {
        start: start_date,
        end: end_date,
        include_tags: filter_tags,
        untagged_only: no_tags,
    }
}

/// Whether `list` is an answer to `filter`: the selection that the filter
/// makes from the scores and tags of some database.
pub open spec fn is_answer(list: Seq<ScoreView>, filter: FilterView) -> bool {
    exists|rows: Seq<ScoreRowView>, table: Seq<TagRowView>| #[trigger]
        selection(joined(rows, table), filter) == list
}

/// Runs a filter on the database: the scores that it admits, each with its
/// tags, in chronological order.
///
/// A filter that contradicts itself is a configuration error, and the
/// database is not touched. Otherwise, whatever the database holds, the
/// scores returned are the selection of the filter from the scores and
/// tags that were read; a failure to read is a storage error and a stored
/// value that is no decimal a decoding error.
pub fn query(conn: &Connection, filter: &Filter) -> (r: Result<Vec<Score>, AppError>)
    ensures
        r matches Err(AppError::Configuration(_)) <==> !filter@.is_consistent(),
        r matches Ok(list) ==> is_answer(score_views(list@), filter@),
        r matches Ok(list) ==> ascending(score_views(list@)),
        r matches Ok(list) ==> forall|k: int|
            0 <= k < list.len() ==> filter@.admits(
                (#[trigger] list@[k]).create_date,
                names(list@[k].tags@),
            ),
{
    match filter.validate() {
        Ok(()) => {},
        Err(e) => {
            return Err(e);
        },
    }
    let rows = match score_rows(conn) {
        Ok(rows) => rows,
        Err(e) => {
            return Err(e);
        },
    };
    let table = match tag_rows(conn) {
        Ok(table) => table,
        Err(e) => {
            return Err(e);
        },
    };
    let ghost stored = joined(score_row_views(rows@), tag_row_views(table@));
    let r = select(rows, &table, filter);
    proof {
        if let Ok(list) = &r {
            assert(selection(stored, filter@) == score_views(list@));
            selection_is_admitted(stored, filter@);
            assert forall|k: int| 0 <= k < list.len() implies filter@.admits(
                (#[trigger] list@[k]).create_date,
                names(list@[k].tags@),
            ) by {
                assert(score_views(list@)[k] == list@[k]@);
            }
        }
    }
    r
}

/// Lists the scores with their tags, in chronological order: those created
/// on `start_date` or later, before `end_date`, carrying one of
/// `filter_tags` unless that list is empty, and, with `no_tags`, carrying no
/// tag.
///
/// Tags to look for together with `no_tags` are a configuration error, and
/// the database is not touched.
pub fn list_scores(
    conn: &Connection,
    filter_tags: &Vec<String>,
    no_tags: bool,
    start_date: Option<Day>,
    end_date: Option<Day>,
) -> (r: Result<Vec<Score>, AppError>)
    ensures
        r matches Err(AppError::Configuration(_)) <==> (filter_tags.len() > 0 && no_tags),
        r matches Ok(list) ==> is_answer(
            score_views(list@),
            listing_filter(names(filter_tags@), no_tags, start_date, end_date),
        ),
        r matches Ok(list) ==> ascending(score_views(list@)),
        r matches Ok(list) ==> forall|k: int|
            0 <= k < list.len() ==> listing_filter(
                names(filter_tags@),
                no_tags,
                start_date,
                end_date,
            ).admits((#[trigger] list@[k]).create_date, names(list@[k].tags@)),
{
    let filter = Filter {
        start: start_date,
        end: end_date,
        include_tags: copy_of(filter_tags),
        untagged_only: no_tags,
    };
    assert(filter@ == listing_filter(names(filter_tags@), no_tags, start_date, end_date));
    query(conn, &filter)
}

/// The stored scores that the rows of the database stand for: one for each
/// row and in the same order, with the identifier and the text of the row,
/// and with the time that the calendar gives for the row's date and time.
pub fn score_rows_from(raw: Vec<(usize, String, NaiveDateTime)>) -> (rows: Vec<ScoreRow>)
    ensures
        rows.len() == raw.len(),
        forall|i: int|
            0 <= i < raw.len() ==> (#[trigger] rows@[i]).id == raw@[i].0 && rows@[i].score@
                == raw@[i].1@,
{
    let ghost all = raw@;
    let mut rows: Vec<ScoreRow> = Vec::new();
    for entry in it: raw
        invariant
            all == it.seq(),
            rows.len() == it.index(),
            forall|i: int|
                0 <= i < rows.len() ==> (#[trigger] rows@[i]).id == all[i].0 && rows@[i].score@
                    == all[i].1@,
    {
        let (id, score, moment) = entry;
        rows.push(ScoreRow { id, score, create_date: timestamp_of(&moment) });
    }
    rows
}

/// The stored tags that the rows of the database stand for: one for each
/// row and in the same order, with the score identifier and the name of
/// the row.
pub fn tag_rows_from(raw: Vec<(i64, String)>) -> (rows: Vec<TagRow>)
    ensures
        tag_row_views(rows@) == Seq::new(
            raw.len() as nat,
            |i: int| (TagRowView { score_id: raw@[i].0 as int, name: raw@[i].1@ }),
        ),
{
    let ghost all = raw@;
    let mut rows: Vec<TagRow> = Vec::new();
    for entry in it: raw
        invariant
            all == it.seq(),
            rows.len() == it.index(),
            forall|i: int|
                0 <= i < rows.len() ==> (#[trigger] rows@[i])@ == (TagRowView {
                    score_id: all[i].0 as int,
                    name: all[i].1@,
                }),
    {
        let (score_id, name) = entry;
        rows.push(TagRow { score_id, name });
    }
    assert(tag_row_views(rows@) =~= Seq::new(
        all.len(),
        |i: int| (TagRowView { score_id: all[i].0 as int, name: all[i].1@ }),
    ));
    rows
}

} // verus!
