//! Key-value tables of SQLite databases.

use vstd::prelude::*;
use vstd::utf8::{decode_utf8, encode_utf8, valid_utf8};

use crate::adapters::shared::StoreError;
use crate::numbers::{decimal, decimal_text};
use crate::text::{bytes_of, concat, lossy_utf8, same_text, text_from_utf8_lossy, texts};

verus! {

/// A value in a row of a table. A real number comes as it is written.
#[derive(Debug)]
pub enum SqlCell {
    Null,
    Integer(i64),
    Real(String),
    Text(Vec<u8>),
    Blob(Vec<u8>),
}

/// A value as a key: text, with what is not text replaced.
pub open spec fn cell_key(cell: SqlCell) -> Seq<char> {
    match cell {
        SqlCell::Null => seq![],
        SqlCell::Integer(value) => decimal(value as int),
        SqlCell::Real(value) => value@,
        SqlCell::Text(bytes) => lossy_utf8(bytes@),
        SqlCell::Blob(bytes) => lossy_utf8(bytes@),
    }
}

/// A value as bytes: those it holds, or those of how it is written.
pub open spec fn cell_bytes(cell: SqlCell) -> Seq<u8> {
    match cell {
        SqlCell::Null => seq![],
        SqlCell::Integer(value) => encode_utf8(decimal(value as int)),
        SqlCell::Real(value) => encode_utf8(value@),
        SqlCell::Text(bytes) => bytes@,
        SqlCell::Blob(bytes) => bytes@,
    }
}

fn copy_bytes(bytes: &Vec<u8>) -> (copy: Vec<u8>)
    ensures
        copy@ == bytes@,
{
    let mut copy: Vec<u8> = Vec::new();
    let mut i: usize = 0;
    while i < bytes.len()
        invariant
            i <= bytes@.len(),
            copy@ == bytes@.take(i as int),
        decreases bytes@.len() - i,
    {
        copy.push(bytes[i]);
        i += 1;
    }
    assert(copy@ =~= bytes@);
    copy
}

impl SqlCell {
    /// The value as a key.
    pub fn to_key(&self) -> (key: String)
        ensures
            key@ == cell_key(*self),
    {
        match self {
            SqlCell::Null => String::new(),
            SqlCell::Integer(value) => decimal_text(*value),
            SqlCell::Real(value) => value.clone(),
            SqlCell::Text(bytes) => text_from_utf8_lossy(bytes.as_slice()),
            SqlCell::Blob(bytes) => text_from_utf8_lossy(bytes.as_slice()),
        }
    }

    /// The value as bytes.
    pub fn to_bytes(&self) -> (bytes: Vec<u8>)
        ensures
            bytes@ == cell_bytes(*self),
    {
        match self {
            SqlCell::Null => Vec::new(),
            SqlCell::Integer(value) => bytes_of(decimal_text(*value).as_str()),
            SqlCell::Real(value) => bytes_of(value.as_str()),
            SqlCell::Text(bytes) => copy_bytes(bytes),
            SqlCell::Blob(bytes) => copy_bytes(bytes),
        }
    }
}

/// The columns that hold keys and values.
pub open spec fn key_value_names(columns: Seq<Seq<char>>) -> Option<(Seq<char>, Seq<char>)> {
    if columns.contains("key"@) && columns.contains("value"@) {
        Some(("key"@, "value"@))
    } else if columns.contains("id"@) && columns.contains("data"@) {
        Some(("id"@, "data"@))
    } else {
        None
    }
}

fn has_column(columns: &Vec<String>, name: &str) -> (found: bool)
    ensures
        found == texts(columns@).contains(name@),
{
    let mut i: usize = 0;
    while i < columns.len()
        invariant
            i <= columns@.len(),
            forall|j: int| 0 <= j < i ==> texts(columns@)[j] != name@,
        decreases columns@.len() - i,
    {
        if same_text(columns[i].as_str(), name) {
            assert(texts(columns@)[i as int] == name@);
            return true;
        }
        i += 1;
    }
    false
}

/// The columns that hold keys and values, among those of a table.
pub fn key_value_columns(columns: &Vec<String>) -> (names: Option<(&'static str, &'static str)>)
    ensures
        match names {
            Some((key, value)) => key_value_names(texts(columns@)) == Some((key@, value@)),
            None => key_value_names(texts(columns@)) is None,
        },
{
    if has_column(columns, "key") && has_column(columns, "value") {
        Some(("key", "value"))
    } else if has_column(columns, "id") && has_column(columns, "data") {
        Some(("id", "data"))
    } else {
        None
    }
}

/// The query for the columns of a table.
pub fn table_info_query(table: &str) -> (query: String)
    ensures
        query@ == "PRAGMA table_info("@ + table@ + ")"@,
{
    concat(concat("PRAGMA table_info(", table).as_str(), ")")
}

/// The query for the keys and values of a table, in the order in which they came.
pub fn select_query(table: &str, key: &str, value: &str) -> (query: String)
    ensures
        query@ == "SELECT "@ + key@ + ", "@ + value@ + " FROM "@ + table@ + " WHERE "@ + value@
            + " IS NOT NULL ORDER BY rowid"@,
{
    let mut query = concat("SELECT ", key);
    query = concat(query.as_str(), ", ");
    query = concat(query.as_str(), value);
    query = concat(query.as_str(), " FROM ");
    query = concat(query.as_str(), table);
    query = concat(query.as_str(), " WHERE ");
    query = concat(query.as_str(), value);
    concat(query.as_str(), " IS NOT NULL ORDER BY rowid")
}

/// What the queries on a table gave: its columns, and the rows of keys and values.
pub struct TableRead {
    pub columns: Result<Vec<String>, StoreError>,
    pub rows: Result<Vec<(SqlCell, SqlCell)>, StoreError>,
}

/// The keys and values of rows.
pub open spec fn row_entries(rows: Seq<(SqlCell, SqlCell)>) -> Seq<(Seq<char>, Seq<u8>)> {
    rows.map_values(|row: (SqlCell, SqlCell)| (cell_key(row.0), cell_bytes(row.1)))
}

/// The keys and values of a table. One whose columns cannot hold any has none.
pub open spec fn table_entries(table: TableRead) -> Result<Seq<(Seq<char>, Seq<u8>)>, StoreError> {
    match table.columns {
        Err(error) => Err(error),
        Ok(columns) => if key_value_names(texts(columns@)) is None {
            Ok(seq![])
        } else {
            match table.rows {
                Err(error) => Err(error),
                Ok(rows) => Ok(row_entries(rows@)),
            }
        },
    }
}

pub open spec fn entry_views(entries: Seq<(String, Vec<u8>)>) -> Seq<(Seq<char>, Seq<u8>)> {
    entries.map_values(|entry: (String, Vec<u8>)| (entry.0@, entry.1@))
}

/// The keys and values of a table.
pub fn read_key_value_table(table: &TableRead) -> (entries: Result<
    Vec<(String, Vec<u8>)>,
    StoreError,
>)
    ensures
        match entries {
            Ok(found) => table_entries(*table) == Ok::<_, StoreError>(entry_views(found@)),
            Err(error) => table_entries(*table) == Err::<Seq<(Seq<char>, Seq<u8>)>, _>(error),
        },
{
    let mut entries: Vec<(String, Vec<u8>)> = Vec::new();
    assert(entry_views(entries@) =~= Seq::<(Seq<char>, Seq<u8>)>::empty());
    match &table.columns {
        Err(error) => return Err(*error),
        Ok(columns) => if key_value_columns(columns).is_none() {
            return Ok(entries);
        },
    }
    let rows = match &table.rows {
        Err(error) => return Err(*error),
        Ok(rows) => rows,
    };
    let mut i: usize = 0;
    while i < rows.len()
        invariant
            i <= rows@.len(),
            entry_views(entries@) == row_entries(rows@).take(i as int),
        decreases rows@.len() - i,
    {
        let ghost before = entries@;
        let entry = (rows[i].0.to_key(), rows[i].1.to_bytes());
        entries.push(entry);
        assert(entry_views(entries@) =~= entry_views(before).push((entry.0@, entry.1@)));
        assert(row_entries(rows@).take(i + 1) =~= row_entries(rows@).take(i as int).push(
            row_entries(rows@)[i as int],
        ));
        i += 1;
    }
    assert(row_entries(rows@).take(i as int) =~= row_entries(rows@));
    Ok(entries)
}

/// A table holds keys and values in columns of that name, or else as ids and data; any
/// other table holds none.
pub proof fn law_key_value_columns(columns: Seq<Seq<char>>)
    ensures
        columns.contains("key"@) && columns.contains("value"@) ==> key_value_names(columns) == Some(
            ("key"@, "value"@),
        ),
        !(columns.contains("key"@) && columns.contains("value"@)) && columns.contains("id"@)
            && columns.contains("data"@) ==> key_value_names(columns) == Some(("id"@, "data"@)),
        !(columns.contains("key"@) && columns.contains("value"@)) && !(columns.contains("id"@)
            && columns.contains("data"@)) ==> key_value_names(columns) is None,
{
}

/// The rows of a table are its entries, in order: text and blobs with the bytes that they
/// hold, and numbers as they are written.
pub proof fn law_rows_are_entries(rows: Seq<(SqlCell, SqlCell)>, i: int)
    requires
        0 <= i < rows.len(),
    ensures
        row_entries(rows).len() == rows.len(),
        match rows[i].1 {
            SqlCell::Null => row_entries(rows)[i].1.len() == 0,
            SqlCell::Integer(value) => row_entries(rows)[i].1 == encode_utf8(decimal(value as int)),
            SqlCell::Real(value) => row_entries(rows)[i].1 == encode_utf8(value@),
            SqlCell::Text(bytes) => row_entries(rows)[i].1 == bytes@,
            SqlCell::Blob(bytes) => row_entries(rows)[i].1 == bytes@,
        },
        match rows[i].0 {
            SqlCell::Null => row_entries(rows)[i].0.len() == 0,
            SqlCell::Integer(value) => row_entries(rows)[i].0 == decimal(value as int),
            SqlCell::Real(value) => row_entries(rows)[i].0 == value@,
            SqlCell::Text(bytes) => valid_utf8(bytes@) ==> row_entries(rows)[i].0 == decode_utf8(
                bytes@,
            ),
            SqlCell::Blob(bytes) => valid_utf8(bytes@) ==> row_entries(rows)[i].0 == decode_utf8(
                bytes@,
            ),
        },
{
}

/// A table cannot be read if its columns cannot, or if its rows cannot and its columns
/// hold keys and values; without such columns it is empty.
pub proof fn law_table_entries(table: TableRead)
    ensures
        table.columns is Err ==> table_entries(table) is Err,
        table.columns matches Ok(columns) ==> {
            &&& key_value_names(texts(columns@)) is None ==> table_entries(table) == Ok::<
                Seq<(Seq<char>, Seq<u8>)>,
                StoreError,
            >(seq![])
            &&& key_value_names(texts(columns@)) is Some ==> (table_entries(table) is Err
                <==> table.rows is Err)
            &&& key_value_names(texts(columns@)) is Some && table.rows is Ok ==> table_entries(
                table,
            ) == Ok::<Seq<(Seq<char>, Seq<u8>)>, StoreError>(row_entries(table.rows->Ok_0@))
        },
{
}

} // verus!
