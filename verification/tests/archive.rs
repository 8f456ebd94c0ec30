use postgresql_archive::row::insert_statement;
use postgresql_archive::{row_at, PostgresqlArchive, DEFAULT_TABLE};
use std::time::Duration;

fn store() -> PostgresqlArchive {
    PostgresqlArchive::new("db.example:5432".to_string(), "orders".to_string(), "xmip".to_string())
}

#[test]
fn a_new_archive_writes_to_the_default_table() {
    assert_eq!(DEFAULT_TABLE, "archive");
    assert_eq!(store().location("41"), "postgresql://db.example:5432/orders/archive?id=41");
}

#[test]
fn the_receipt_names_server_database_table_and_row() {
    let archive = store()
        .with_password("secret".to_string())
        .with_table("audit.archive".to_string())
        .timing_out_after(Duration::from_secs(2));
    assert_eq!(
        archive.location("41"),
        "postgresql://db.example:5432/orders/audit.archive?id=41"
    );
}

#[test]
fn the_builders_leave_the_table_alone_but_for_with_table() {
    let archive = store()
        .with_table("first".to_string())
        .with_password("secret".to_string())
        .timing_out_after(Duration::from_secs(1))
        .with_table("second".to_string());
    assert_eq!(archive.location("7"), "postgresql://db.example:5432/orders/second?id=7");
}

#[test]
fn an_insert_that_answers_an_id_gives_the_receipt() {
    let archive = store().with_table("audit.archive".to_string());
    let rows = vec![vec![Some("41".to_string())]];
    let receipt = archive.receipt_location(&rows).ok().expect("receipt");
    assert_eq!(receipt, "postgresql://db.example:5432/orders/audit.archive?id=41");
}

#[test]
fn an_insert_that_answers_no_id_is_an_error() {
    let archive = store().with_table("audit.archive".to_string());
    for rows in [vec![], vec![vec![]], vec![vec![None, Some("x".to_string())]]] {
        let error = archive.receipt_location(&rows).err().expect("no id");
        assert_eq!(error.message, "the insert into audit.archive returned no id");
    }
}

#[test]
fn the_first_row_selected_is_the_one_restored() {
    let rows = vec![
        vec![Some("json".to_string()), None],
        vec![Some("other".to_string())],
    ];
    let first = row_at(&rows, "postgresql://h/d/archive?id=1").ok().expect("row");
    assert_eq!(first, &rows[0]);
    let none: Vec<Vec<Option<String>>> = Vec::new();
    let error = row_at(&none, "postgresql://h/d/archive?id=1").err().expect("no row");
    assert_eq!(error.message, "no row at postgresql://h/d/archive?id=1");
}

#[test]
fn the_insert_names_the_five_columns_and_returns_the_id() {
    let sql = insert_statement(
        "\"audit\".\"archive\"",
        "'json'",
        "'it''s #1'",
        "'\\x7bff'",
        "'source\u{1f}playground'",
        "'2026-09-09T12:00:00Z'",
    );
    assert_eq!(
        sql,
        "INSERT INTO \"audit\".\"archive\" (data_type, identifier, bytes, metadata, archived_at) \
         VALUES ('json', 'it''s #1', '\\x7bff', 'source\u{1f}playground', \
         '2026-09-09T12:00:00Z') RETURNING id"
    );
}

#[test]
fn the_settings_read_back_as_they_were_given() {
    let plain = store();
    assert_eq!(plain.server(), "db.example:5432");
    assert_eq!(plain.database(), "orders");
    assert_eq!(plain.user(), "xmip");
    assert_eq!(plain.password(), None);
    assert_eq!(plain.table(), "archive");
    assert_eq!(plain.timeout(), None);
    let set = store()
        .with_password("secret".to_string())
        .timing_out_after(Duration::from_secs(2))
        .with_table("audit.archive".to_string());
    assert_eq!(set.password(), Some("secret"));
    assert_eq!(set.timeout(), Some(Duration::from_secs(2)));
    assert_eq!(set.table(), "audit.archive");
    assert_eq!(set.server(), "db.example:5432");
    assert_eq!(set.user(), "xmip");
}
