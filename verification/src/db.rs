//! The on-disk database file: opening a connection and the idempotent schema
//! bootstrap. Whether these calls succeed depends on the file system, so
//! their contracts promise nothing of the outcome; the errors are surfaced
//! to the caller and are fatal at startup.
use vstd::prelude::*;

verus! {

#[verifier::external_type_specification]
#[verifier::external_body]
pub struct ExConnection(rusqlite::Connection);

/// Relies on rusqlite's `Connection::open`: opens the database file at the
/// given path, creating it when absent.
#[verifier::external_body]
fn connection_open(path: &str) -> (r: Result<rusqlite::Connection, String>) {
    rusqlite::Connection::open(path).map_err(|error| error.to_string())
}

/// Relies on rusqlite's `Connection::execute`: runs one parameterless SQL
/// statement.
#[verifier::external_body]
fn connection_execute(conn: &rusqlite::Connection, sql: &str) -> (r: Result<usize, String>) {
    conn.execute(sql, []).map_err(|error| error.to_string())
}

/// Relies on rusqlite's `Connection::execute_batch`: runs several SQL
/// statements in order.
#[verifier::external_body]
fn connection_execute_batch(conn: &rusqlite::Connection, sql: &str) -> (r: Result<(), String>) {
    conn.execute_batch(sql).map_err(|error| error.to_string())
}

/// Opens the database file and switches cascade-delete referential integrity
/// on. Success depends on the file system; any error is handed back.
pub fn open_connection(db_path: &str) -> Result<rusqlite::Connection, String> {
    let connection = match connection_open(db_path) {
        Ok(c) => c,
        Err(e) => {
            return Err(e);
        },
    };
    match connection_execute(&connection, "PRAGMA foreign_keys = ON") {
        Ok(_) => Ok(connection),
        Err(e) => Err(e),
    }
}

/// Creates the three tables and their indexes when absent, with cascade
/// delete from prompts to versions and usage logs. Idempotent; errors are
/// surfaced, not retried.
pub fn initialize_database(db_path: &str) -> Result<(), String> {
    let connection = match open_connection(db_path) {
        Ok(c) => c,
        Err(e) => {
            return Err(e);
        },
    };
    connection_execute_batch(
        &connection,
        "
      CREATE TABLE IF NOT EXISTS prompts (
        id INTEGER PRIMARY KEY AUTOINCREMENT,
        title TEXT NOT NULL,
        content TEXT NOT NULL,
        tags TEXT NOT NULL DEFAULT '[]',
        is_favorite INTEGER NOT NULL DEFAULT 0,
        score_sum INTEGER NOT NULL DEFAULT 0,
        score_count INTEGER NOT NULL DEFAULT 0,
        created_at TEXT NOT NULL,
        updated_at TEXT NOT NULL
      );

      CREATE TABLE IF NOT EXISTS prompt_versions (
        id INTEGER PRIMARY KEY AUTOINCREMENT,
        prompt_id INTEGER NOT NULL,
        content TEXT NOT NULL,
        change_note TEXT NOT NULL DEFAULT '',
        created_at TEXT NOT NULL,
        FOREIGN KEY(prompt_id) REFERENCES prompts(id) ON DELETE CASCADE
      );

      CREATE TABLE IF NOT EXISTS usage_logs (
        id INTEGER PRIMARY KEY AUTOINCREMENT,
        prompt_id INTEGER NOT NULL,
        input_vars TEXT NOT NULL DEFAULT '{}',
        output_text TEXT NOT NULL,
        rating INTEGER,
        used_at TEXT NOT NULL,
        FOREIGN KEY(prompt_id) REFERENCES prompts(id) ON DELETE CASCADE
      );

      CREATE INDEX IF NOT EXISTS idx_prompts_updated_at ON prompts(updated_at);
      CREATE INDEX IF NOT EXISTS idx_prompt_versions_prompt_id ON prompt_versions(prompt_id);
      CREATE INDEX IF NOT EXISTS idx_usage_logs_prompt_id ON usage_logs(prompt_id);
      ",
    )
}

} // verus!
