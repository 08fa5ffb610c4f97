//! The database schema of the REST template, as the statements that set it
//! up.  Sending them to a database is left to the server.

use vstd::prelude::*;
use vstd::string::StringExecFns;

verus! {

/// The name of the table of users.
pub const USERS_TABLE: &'static str = "users";

/// The name of the table of todos.
pub const TODOS_TABLE: &'static str = "todos";

/// The statement that makes UUID generation available.
pub open spec fn extension_sql() -> Seq<char> {
    "CREATE EXTENSION IF NOT EXISTS pgcrypto;"@
}

/// What stands before the table name in the statement that creates the
/// table of users.
pub open spec fn users_table_head() -> Seq<char> {
    "
    CREATE TABLE IF NOT EXISTS "@
}

/// What stands after the table name in the statement that creates the
/// table of users.
pub open spec fn users_table_tail() -> Seq<char> {
    " (
        id UUID PRIMARY KEY DEFAULT gen_random_uuid(),
        name VARCHAR(100) NOT NULL,
        email_hash CHAR(128) NOT NULL UNIQUE,
        email_encrypt TEXT NOT NULL,
        nonce VARCHAR(24) NOT NULL,
        password TEXT NOT NULL,
        role VARCHAR(5) NOT NULL CHECK (role IN ('admin', 'user')) DEFAULT 'user',
    );
    "@
}

/// The statements that set the schema up, in the order in which they are
/// to be sent: the extension, then the table of users.
pub open spec fn setup_sql() -> Seq<Seq<char>> {
    seq![extension_sql(), users_table_head() + USERS_TABLE@ + users_table_tail()]
}

/// The statement that creates the table of users under the name `table`.
pub fn users_table_statement(table: &str) -> (sql: String)
    ensures
        sql@ == users_table_head() + table@ + users_table_tail(),
{
    String::from_str("
    CREATE TABLE IF NOT EXISTS ").concat(table).concat(
        " (
        id UUID PRIMARY KEY DEFAULT gen_random_uuid(),
        name VARCHAR(100) NOT NULL,
        email_hash CHAR(128) NOT NULL UNIQUE,
        email_encrypt TEXT NOT NULL,
        nonce VARCHAR(24) NOT NULL,
        password TEXT NOT NULL,
        role VARCHAR(5) NOT NULL CHECK (role IN ('admin', 'user')) DEFAULT 'user',
    );
    ",
    )
}

/// The statements that set the schema up, in the order in which they are
/// to be sent.
pub fn create_tables() -> (statements: Vec<String>)
    ensures
        statements@.len() == 2,
        statements@[0]@ == setup_sql()[0],
        statements@[1]@ == setup_sql()[1],
{
    let mut statements: Vec<String> = Vec::new();
    statements.push(String::from_str("CREATE EXTENSION IF NOT EXISTS pgcrypto;"));
    statements.push(users_table_statement(USERS_TABLE));
    statements
}

} // verus!
