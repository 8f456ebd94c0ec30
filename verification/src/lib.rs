//! `PostgreSQL` archive: keeps each retained item as one row of an archive
//! table, and restores it by selecting the row back.
//!
//! One item is one row with the four columns every archive technology
//! carries (`data_type`, `identifier`, `bytes`, `metadata`) and
//! `archived_at`, when it was handed over. An archive never deletes: this
//! one inserts and selects, nothing else. The receipt is
//! `postgresql://<server>/<database>/<table>?id=<n>`.
//!
//! This crate holds, with their proofs, the settings of a store and how they
//! are built up, the receipt a stored row is given, the decisions taken on
//! what the server answers, the shape of the INSERT statement
//! (`row`), and the RFC 3339 timestamp (`timestamp`, proved against the
//! calendar of `calendar`).
use std::time::Duration;
use vstd::prelude::*;

pub mod calendar;
pub mod row;
pub mod timestamp;

verus! {

/// The table written to unless told otherwise.
pub const DEFAULT_TABLE: &'static str = "archive";

/// An archive that keeps items as rows of one table on one server.
pub struct PostgresqlArchive {
    server: String,
    database: String,
    user: String,
    password: Option<String>,
    table: String,
    timeout: Option<Duration>,
}

/// What a `PostgresqlArchive` is set to, as text.
pub struct ArchiveSettings {
    pub server: Seq<char>,
    pub database: Seq<char>,
    pub user: Seq<char>,
    pub password: Option<Seq<char>>,
    pub table: Seq<char>,
    pub timeout: Option<Duration>,
}

impl View for PostgresqlArchive {
    type V = ArchiveSettings;

    closed spec fn view(&self) -> ArchiveSettings {
        ArchiveSettings {
            server: self.server@,
            database: self.database@,
            user: self.user@,
            password: match self.password {
                Some(password) => Some(password@),
                None => None,
            },
            table: self.table@,
            timeout: self.timeout,
        }
    }
}

/// Why an item could not be archived or restored.
pub struct ArchiveError {
    pub message: String,
}

/// The receipt of row `id` of `settings`' table:
/// `postgresql://<server>/<database>/<table>?id=<id>`.
pub open spec fn location_text(settings: ArchiveSettings, id: Seq<char>) -> Seq<char> {
    "postgresql://"@ + settings.server + "/"@ + settings.database + "/"@ + settings.table + "?id="@
        + id
}

/// The id an INSERT answered with: the first column of the first row, when
/// there is one and it is not null.
pub open spec fn inserted_id(rows: Seq<Vec<Option<String>>>) -> Option<Seq<char>> {
    if rows.len() > 0 && rows[0]@.len() > 0 {
        match rows[0]@[0] {
            Some(id) => Some(id@),
            None => None,
        }
    } else {
        None
    }
}

impl PostgresqlArchive {
    /// An archive writing to `DEFAULT_TABLE` in `database` at `server`,
    /// logging in as `user` by trust.
    #[must_use]
    pub fn new(server: String, database: String, user: String) -> (archive: Self)
        ensures
            archive@.server == server@,
            archive@.database == database@,
            archive@.user == user@,
            archive@.password is None,
            archive@.table == DEFAULT_TABLE@,
            archive@.timeout is None,
    {
        PostgresqlArchive {
            server,
            database,
            user,
            password: None,
            table: DEFAULT_TABLE.to_owned(),
            timeout: None,
        }
    }

    /// The password to give when the server asks for one in the clear.
    #[must_use]
    pub fn with_password(self, password: String) -> (archive: Self)
        ensures
            archive@.password == Some(password@),
            archive@.server == self@.server,
            archive@.database == self@.database,
            archive@.user == self@.user,
            archive@.table == self@.table,
            archive@.timeout == self@.timeout,
    {
        PostgresqlArchive { password: Some(password), ..self }
    }

    /// The table to write to, `audit.archive` say.
    #[must_use]
    pub fn with_table(self, table: String) -> (archive: Self)
        ensures
            archive@.table == table@,
            archive@.server == self@.server,
            archive@.database == self@.database,
            archive@.user == self@.user,
            archive@.password == self@.password,
            archive@.timeout == self@.timeout,
    {
        PostgresqlArchive { table, ..self }
    }

    /// Give up on a server that stops mid-message.
    #[must_use]
    pub fn timing_out_after(self, timeout: Duration) -> (archive: Self)
        ensures
            archive@.timeout == Some(timeout),
            archive@.server == self@.server,
            archive@.database == self@.database,
            archive@.user == self@.user,
            archive@.password == self@.password,
            archive@.table == self@.table,
    {
        PostgresqlArchive { timeout: Some(timeout), ..self }
    }

    /// The server the archive connects to.
    pub fn server(&self) -> (server: &str)
        ensures
            server@ == self@.server,
    {
        self.server.as_str()
    }

    /// The database the archive's table is in.
    pub fn database(&self) -> (database: &str)
        ensures
            database@ == self@.database,
    {
        self.database.as_str()
    }

    /// The user the archive logs in as.
    pub fn user(&self) -> (user: &str)
        ensures
            user@ == self@.user,
    {
        self.user.as_str()
    }

    /// The password given when the server asks for one, if any.
    pub fn password(&self) -> (password: Option<&str>)
        ensures
            match password {
                Some(given) => self@.password == Some(given@),
                None => self@.password is None,
            },
    {
        match &self.password {
            Some(password) => Some(password.as_str()),
            None => None,
        }
    }

    /// The table the archive writes to.
    pub fn table(&self) -> (table: &str)
        ensures
            table@ == self@.table,
    {
        self.table.as_str()
    }

    /// How long to wait on a server that stops mid-message, if at all.
    pub fn timeout(&self) -> (timeout: Option<Duration>)
        ensures
            timeout == self@.timeout,
    {
        self.timeout
    }

    /// The receipt of row `id`: `postgresql://<server>/<database>/<table>?id=<id>`.
    pub fn location(&self, id: &str) -> (location: String)
        ensures
            location@ == location_text(self@, id@),
            location@.len() >= id@.len() + 4,
            location@.subrange(location@.len() - id@.len() - 4, location@.len() as int) == "?id="@
                + id@,
    {
        let mut location = "postgresql://".to_owned();
        location.append(self.server.as_str());
        location.append("/");
        location.append(self.database.as_str());
        location.append("/");
        location.append(self.table.as_str());
        location.append("?id=");
        location.append(id);
        proof {
            lemma_receipt_names_its_row(self@, id@, id@);
        }
        location
    }

    /// The receipt of the row an INSERT into this archive's table answered
    /// with `rows`: the location of the id in its first column of its first
    /// row, or, where there is no such id, the error that the insert
    /// returned none.
    pub fn receipt_location(&self, rows: &Vec<Vec<Option<String>>>) -> (receipt: Result<
        String,
        ArchiveError,
    >)
        ensures
            match receipt {
                Ok(location) => inserted_id(rows@) matches Some(id) && location@ == location_text(
                    self@,
                    id,
                ),
                Err(error) => inserted_id(rows@) is None && error.message@ == "the insert into "@
                    + self@.table + " returned no id"@,
            },
            (rows@.len() > 0 && rows@[0]@.len() > 0 && rows@[0]@[0] is Some) <==> receipt is Ok,
            (rows@.len() > 0 && rows@[0]@.len() > 0 && rows@[0]@[0] is Some) ==> (receipt is Ok
                && receipt->Ok_0@ == location_text(self@, rows@[0]@[0]->0@)),
    {
        if rows.len() > 0 && rows[0].len() > 0 {
            match &rows[0][0] {
                Some(id) => {
                    return Ok(self.location(id.as_str()));
                },
                None => {},
            }
        }
        let mut message = "the insert into ".to_owned();
        message.append(self.table.as_str());
        message.append(" returned no id");
        Err(ArchiveError { message })
    }
}

/// The row that restores the item at `location`: the first of the `rows` a
/// SELECT answered with, or, where there is none, the error that no row is
/// there.
pub fn row_at<'a>(rows: &'a Vec<Vec<Option<String>>>, location: &str) -> (row: Result<
    &'a Vec<Option<String>>,
    ArchiveError,
>)
    ensures
        match row {
            Ok(first) => rows@.len() > 0 && *first == rows@[0],
            Err(error) => rows@.len() == 0 && error.message@ == "no row at "@ + location@,
        },
{
    if rows.len() > 0 {
        Ok(&rows[0])
    } else {
        let mut message = "no row at ".to_owned();
        message.append(location);
        Err(ArchiveError { message })
    }
}

/// A receipt ends in `?id=` and the whole id it was given, and two ids of
/// one archive never share a receipt.
pub proof fn lemma_receipt_names_its_row(settings: ArchiveSettings, a: Seq<char>, b: Seq<char>)
    ensures
        location_text(settings, a).len() >= a.len() + 4,
        location_text(settings, a).subrange(
            location_text(settings, a).len() - a.len() - 4,
            location_text(settings, a).len() as int,
        ) == "?id="@ + a,
        location_text(settings, a).subrange(0, 13) == "postgresql://"@,
        location_text(settings, a) == location_text(settings, b) ==> a == b,
{
    reveal_strlit("?id=");
    reveal_strlit("postgresql://");
    reveal_strlit("/");
    let ta = location_text(settings, a);
    let tb = location_text(settings, b);
    let head = "postgresql://"@ + settings.server + "/"@ + settings.database + "/"@ + settings.table
        + "?id="@;
    assert(ta =~= head + a);
    assert(tb =~= head + b);
    assert(ta.subrange(ta.len() - a.len() - 4, ta.len() as int) =~= "?id="@ + a);
    assert(ta.subrange(0, 13) =~= "postgresql://"@);
    if ta == tb {
        assert(a =~= ta.subrange(head.len() as int, ta.len() as int));
        assert(b =~= tb.subrange(head.len() as int, tb.len() as int));
    }
}

/// The id of an INSERT's answer is the first column of its first row
/// whenever that is there and not null, and there is none exactly when
/// there is no row, no column, or a null.
pub proof fn lemma_inserted_id_is_first_cell(rows: Seq<Vec<Option<String>>>)
    ensures
        (rows.len() > 0 && rows[0]@.len() > 0 && rows[0]@[0] is Some) ==> inserted_id(rows)
            == Some(rows[0]@[0]->0@),
        inserted_id(rows) is None <==> (rows.len() == 0 || rows[0]@.len() == 0 || rows[0]@[0] is None),
{
}

} // verus!
