//! One item as one row: the INSERT that stores it and asks for the new
//! row's id with `RETURNING`. The statement is put together here from the
//! SQL text of its six parts, each already quoted in the `PostgreSQL`
//! dialect: the table's name, and the literals of the data type, the
//! identifier, the bytes, the metadata and the time of archiving.
use vstd::prelude::*;

verus! {

/// `INSERT INTO <table> (data_type, identifier, bytes, metadata, archived_at)
/// VALUES (<data_type>, <identifier>, <bytes>, <metadata>, <archived_at>)
/// RETURNING id`.
pub open spec fn insert_text(
    table: Seq<char>,
    data_type: Seq<char>,
    identifier: Seq<char>,
    bytes: Seq<char>,
    metadata: Seq<char>,
    archived_at: Seq<char>,
) -> Seq<char> {
    "INSERT INTO "@ + table + " (data_type, identifier, bytes, metadata, archived_at) VALUES ("@
        + data_type + ", "@ + identifier + ", "@ + bytes + ", "@ + metadata + ", "@ + archived_at
        + ") RETURNING id"@
}

/// The statement that stores an item in the table named `table`, answering
/// with the new row's `id`; every argument is SQL text, quoted already.
pub fn insert_statement(
    table: &str,
    data_type: &str,
    identifier: &str,
    bytes: &str,
    metadata: &str,
    archived_at: &str,
) -> (sql: String)
    ensures
        sql@ == insert_text(table@, data_type@, identifier@, bytes@, metadata@, archived_at@),
        sql@ == "INSERT INTO "@ + table@
            + " (data_type, identifier, bytes, metadata, archived_at) VALUES ("@ + data_type@
            + ", "@ + identifier@ + ", "@ + bytes@ + ", "@ + metadata@ + ", "@ + archived_at@
            + ") RETURNING id"@,
{
    let mut sql = "INSERT INTO ".to_owned();
    sql.append(table);
    sql.append(" (data_type, identifier, bytes, metadata, archived_at) VALUES (");
    sql.append(data_type);
    sql.append(", ");
    sql.append(identifier);
    sql.append(", ");
    sql.append(bytes);
    sql.append(", ");
    sql.append(metadata);
    sql.append(", ");
    sql.append(archived_at);
    sql.append(") RETURNING id");
    sql
}

/// The statement names the five columns in order and gives each the text
/// handed for it, the metadata fourth, then asks for the new row's id.
pub proof fn lemma_insert_values_in_order(
    table: Seq<char>,
    data_type: Seq<char>,
    identifier: Seq<char>,
    bytes: Seq<char>,
    metadata: Seq<char>,
    archived_at: Seq<char>,
)
    ensures
        insert_text(table, data_type, identifier, bytes, metadata, archived_at) == "INSERT INTO "@
            + table + " (data_type, identifier, bytes, metadata, archived_at) VALUES ("@ + data_type
            + ", "@ + identifier + ", "@ + bytes + ", "@ + metadata + ", "@ + archived_at
            + ") RETURNING id"@,
{
}

} // verus!
