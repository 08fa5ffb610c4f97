use create_woragis_api::routes::{auth_routes, profile_routes, Endpoint, Method};
use create_woragis_api::schema::{create_tables, users_table_statement, TODOS_TABLE, USERS_TABLE};

#[test]
fn table_names() {
    assert_eq!(USERS_TABLE, "users");
    assert_eq!(TODOS_TABLE, "todos");
}

#[test]
fn the_schema_is_set_up_by_two_statements() {
    let statements = create_tables();
    assert_eq!(statements.len(), 2);
    assert_eq!(statements[0], "CREATE EXTENSION IF NOT EXISTS pgcrypto;");
    assert_eq!(statements[1], users_table_statement("users"));
    assert!(statements[1].starts_with("\n    CREATE TABLE IF NOT EXISTS users (\n        id UUID PRIMARY KEY"));
    assert!(statements[1].ends_with("DEFAULT 'user',\n    );\n    "));
}

#[test]
fn the_users_table_statement_names_the_table() {
    let sql = users_table_statement("people");
    let expected = format!(
        "
    CREATE TABLE IF NOT EXISTS {} (
        id UUID PRIMARY KEY DEFAULT gen_random_uuid(),
        name VARCHAR(100) NOT NULL,
        email_hash CHAR(128) NOT NULL UNIQUE,
        email_encrypt TEXT NOT NULL,
        nonce VARCHAR(24) NOT NULL,
        password TEXT NOT NULL,
        role VARCHAR(5) NOT NULL CHECK (role IN ('admin', 'user')) DEFAULT 'user',
    );
    ",
        "people"
    );
    assert_eq!(sql, expected);
}

#[test]
fn authentication_routes() {
    let table = auth_routes();
    assert_eq!(table.scope, "/auth");
    let routes: Vec<(Method, String, Endpoint)> =
        table.routes.into_iter().map(|r| (r.method, r.path, r.endpoint)).collect();
    assert_eq!(
        routes,
        vec![
            (Method::Post, "/login".to_string(), Endpoint::Login),
            (Method::Post, "/register".to_string(), Endpoint::Register),
        ]
    );
}

#[test]
fn profile_routes_table() {
    let table = profile_routes();
    assert_eq!(table.scope, "/profile");
    let routes: Vec<(Method, String, Endpoint)> =
        table.routes.into_iter().map(|r| (r.method, r.path, r.endpoint)).collect();
    assert_eq!(
        routes,
        vec![
            (Method::Get, "/".to_string(), Endpoint::GetUserProfile),
            (Method::Put, "/update".to_string(), Endpoint::UpdateUserProfile),
            (Method::Put, "/update-password".to_string(), Endpoint::UpdateUserPassword),
            (Method::Delete, "/delete".to_string(), Endpoint::DeleteUserProfile),
        ]
    );
}
