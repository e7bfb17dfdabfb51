//! The persistence layer: the only module that issues SQL. Each call
//! into rusqlite stands behind a trusted wrapper; what the store
//! returns depends on the database file, so the wrappers state only
//! what holds of every outcome, and the callers work from that.

use vstd::prelude::*;
use vstd::string::StringExecFns;
use crate::models::{Answer, Question, Quiz, StorageError};

verus! {

#[verifier::external_type_specification]
#[verifier::external_body]
pub struct ExConnection(rusqlite::Connection);

#[verifier::external_type_specification]
#[verifier::external_body]
pub struct ExSqlError(rusqlite::Error);

/// Relies on rusqlite's `Connection::execute`: runs one parameterless
/// SQL statement, `Ok` on success, the store's error otherwise.
#[verifier::external_body]
fn sql_execute(conn: &rusqlite::Connection, sql: &str) -> (r: Result<usize, rusqlite::Error>) {
    conn.execute(sql, ())
}

/// Relies on rusqlite's `Connection::execute` with one text parameter.
#[verifier::external_body]
fn sql_execute_text(conn: &rusqlite::Connection, sql: &str, p: &str) -> (r: Result<
    usize,
    rusqlite::Error,
>) {
    conn.execute(sql, (p,))
}

/// Relies on rusqlite's `Connection::execute` with one integer and one
/// text parameter.
#[verifier::external_body]
fn sql_execute_int_text(conn: &rusqlite::Connection, sql: &str, a: i32, t: &str) -> (r: Result<
    usize,
    rusqlite::Error,
>) {
    conn.execute(sql, (a, t))
}

/// Relies on rusqlite's `Connection::execute` with an integer, a text
/// and a boolean parameter.
#[verifier::external_body]
fn sql_execute_int_text_bool(
    conn: &rusqlite::Connection,
    sql: &str,
    a: i32,
    t: &str,
    b: bool,
) -> (r: Result<usize, rusqlite::Error>) {
    conn.execute(sql, (a, t, b))
}

/// Relies on rusqlite's `Connection::last_insert_rowid`: the rowid of
/// the most recent successful INSERT on this connection.
#[verifier::external_body]
fn sql_last_insert_rowid(conn: &rusqlite::Connection) -> (r: i64) {
    conn.last_insert_rowid()
}

/// Relies on rusqlite's `Connection::prepare`, `Statement::query_map`
/// and `Row::get`: runs the fixed two-column SELECT over the quizzes
/// table and hands each row to the verified `Quiz` constructor.
#[verifier::external_body]
fn sql_select_quizzes(conn: &rusqlite::Connection) -> (r: Result<Vec<Quiz>, rusqlite::Error>) {
    let mut stmt = conn.prepare("SELECT id, name FROM quizzes")?;
    let rows = stmt.query_map([], |row| Ok(Quiz::new(row.get(0)?, row.get(1)?)))?;
    rows.collect()
}

/// Relies on rusqlite's `Connection::prepare`, `Statement::query_map`
/// and `Row::get`: selects the questions of one quiz; the closure
/// builds each row with the given `quiz_id`, so every returned row
/// carries it.
#[verifier::external_body]
fn sql_select_questions(conn: &rusqlite::Connection, quiz_id: i32) -> (r: Result<
    Vec<Question>,
    rusqlite::Error,
>)
    ensures
        (match r {
            Ok(v) => forall|k: int| 0 <= k < v@.len() ==> (#[trigger] v@[k]).quiz_id == quiz_id,
            Err(e) => true,
        }),
{
    let mut stmt = conn.prepare("SELECT id, text FROM questions WHERE quiz_id = ?1")?;
    let rows = stmt.query_map([quiz_id], |row| Ok(Question::new(row.get(0)?, quiz_id, row.get(1)?)))?;
    rows.collect()
}

/// Relies on the `Display` impl of rusqlite's `Error` for the text
/// that a write failure surfaces to the client.
#[verifier::external_body]
fn sql_error_message(e: &rusqlite::Error) -> String {
    e.to_string()
}

/// Turns a store error into the library's own error value.
fn storage_error(e: rusqlite::Error) -> (r: StorageError) {
    StorageError { message: sql_error_message(&e) }
}

/// Creates the three tables when absent. Safe to run at every start:
/// each statement is `CREATE TABLE IF NOT EXISTS`, so a second run
/// changes nothing.
pub fn create_tables(conn: &rusqlite::Connection) -> (r: Result<(), StorageError>) {
    match sql_execute(
        conn,
        "CREATE TABLE IF NOT EXISTS quizzes (\n            id INTEGER PRIMARY KEY,\n            name TEXT NOT NULL,\n            created_at DATETIME DEFAULT CURRENT_TIMESTAMP\n        )",
    ) {
        Ok(_) => {},
        Err(e) => {
            return Err(storage_error(e));
        },
    }
    match sql_execute(
        conn,
        "CREATE TABLE IF NOT EXISTS questions (\n            id INTEGER PRIMARY KEY,\n            quiz_id INTEGER,\n            text TEXT NOT NULL,\n            FOREIGN KEY(quiz_id) REFERENCES quizzes(id)\n        )",
    ) {
        Ok(_) => {},
        Err(e) => {
            return Err(storage_error(e));
        },
    }
    match sql_execute(
        conn,
        "CREATE TABLE IF NOT EXISTS answers (\n            id INTEGER PRIMARY KEY,\n            question_id INTEGER,\n            text TEXT NOT NULL,\n            is_correct BOOLEAN,\n            FOREIGN KEY(question_id) REFERENCES questions(id)\n        )",
    ) {
        Ok(_) => {},
        Err(e) => {
            return Err(storage_error(e));
        },
    }
    Ok(())
}

/// All quiz rows, id and name; what comes back depends on the store.
pub fn get_quizzes(conn: &rusqlite::Connection) -> (r: Result<Vec<Quiz>, StorageError>) {
    match sql_select_quizzes(conn) {
        Ok(v) => Ok(v),
        Err(e) => Err(storage_error(e)),
    }
}

/// The question rows of one quiz: every returned row carries the
/// asked-for `quiz_id`; an unknown quiz gives an empty list, not an
/// error.
pub fn get_questions_for_quiz(conn: &rusqlite::Connection, quiz_id: i32) -> (r: Result<
    Vec<Question>,
    StorageError,
>)
    ensures
        (match r {
            Ok(v) => forall|k: int| 0 <= k < v@.len() ==> (#[trigger] v@[k]).quiz_id == quiz_id,
            Err(e) => true,
        }),
{
    match sql_select_questions(conn, quiz_id) {
        Ok(v) => Ok(v),
        Err(e) => Err(storage_error(e)),
    }
}

/// The store's rowid as the api's 32-bit identifier: a rowid beyond
/// that range becomes the library's own error rather than a silent
/// wrap. The insert behind it has happened either way.
pub fn rowid_to_new_id(rowid: i64) -> (r: Result<i32, StorageError>)
    ensures
        -2147483648i64 <= rowid && rowid <= 2147483647i64 ==> (r matches Ok(id) && id
            == rowid as i32),
        !(-2147483648i64 <= rowid && rowid <= 2147483647i64) ==> (r matches Err(e)
            && e.message@ == "assigned identifier out of range"@),
{
    if -2147483648i64 <= rowid && rowid <= 2147483647i64 {
        Ok(rowid as i32)
    } else {
        Err(StorageError { message: String::from_str("assigned identifier out of range") })
    }
}

/// Inserts a quiz row; `Ok` carries the identifier the store assigned.
pub fn add_quiz(conn: &rusqlite::Connection, name: String) -> (r: Result<i32, StorageError>) {
    match sql_execute_text(conn, "INSERT INTO quizzes (name) VALUES (?1)", name.as_str()) {
        Ok(_) => {},
        Err(e) => {
            return Err(storage_error(e));
        },
    }
    rowid_to_new_id(sql_last_insert_rowid(conn))
}

/// Inserts a question row under a quiz; `Ok` carries the assigned
/// identifier. Whether the quiz exists is not checked here.
pub fn add_question(conn: &rusqlite::Connection, quiz_id: i32, text: String) -> (r: Result<
    i32,
    StorageError,
>) {
    match sql_execute_int_text(
        conn,
        "INSERT INTO questions (quiz_id, text) VALUES (?1, ?2)",
        quiz_id,
        text.as_str(),
    ) {
        Ok(_) => {},
        Err(e) => {
            return Err(storage_error(e));
        },
    }
    rowid_to_new_id(sql_last_insert_rowid(conn))
}

/// Inserts every given answer under the question, stopping at the
/// first failing row; rows inserted before a failure stay.
pub fn add_answers(conn: &rusqlite::Connection, question_id: i32, answers: Vec<Answer>) -> (r:
    Result<(), StorageError>)
    ensures
        answers@.len() == 0 ==> r matches Ok(u),
{
    let mut i: usize = 0;
    while i < answers.len()
        invariant
            0 <= i <= answers@.len(),
        decreases answers@.len() - i,
    {
        let a = &answers[i];
        match sql_execute_int_text_bool(
            conn,
            "INSERT INTO answers (question_id, text, is_correct) VALUES (?1, ?2, ?3)",
            question_id,
            a.text.as_str(),
            a.is_correct,
        ) {
            Ok(_) => {},
            Err(e) => {
                return Err(storage_error(e));
            },
        }
        i = i + 1;
    }
    Ok(())
}

} // verus!
