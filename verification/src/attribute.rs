//! Extra key/value attributes of media items: the statements that set and
//! delete them, and reading them back from result rows.
use vstd::prelude::*;
use crate::crud::{SqlParam, SqlValue, param_values, opt_text_value, execute_statement};
use crate::db_value::{SqlRow, int_of, text_of, missing_text, parse_text};
use crate::error::KijukuError;
use crate::exec_local::query;
use crate::types::{AttributeValueType, MediaAttribute, MediaAttributeView, opt_str_view, str_eq};

verus! {

broadcast use vstd::std_specs::vec::group_vec_axioms;

/// The stored text of a value type.
pub open spec fn value_type_text(t: AttributeValueType) -> Seq<char> {
    match t {
        AttributeValueType::String => "string"@,
        AttributeValueType::Integer => "integer"@,
        AttributeValueType::Boolean => "boolean"@,
    }
}

/// The value type of a stored text (`string` for any unknown text).
pub open spec fn value_type_of(s: Seq<char>) -> AttributeValueType {
    if s == "integer"@ {
        AttributeValueType::Integer
    } else if s == "boolean"@ {
        AttributeValueType::Boolean
    } else {
        AttributeValueType::String
    }
}

/// The stored text of a value type (`string` when none is given).
pub fn value_type_str(t: Option<AttributeValueType>) -> (r: &'static str)
    ensures
        r@ == value_type_text(match t { Some(x) => x, None => AttributeValueType::String }),
{
    match t {
        Some(AttributeValueType::Integer) => "integer",
        Some(AttributeValueType::Boolean) => "boolean",
        _ => "string",
    }
}

/// The statement that sets attribute `key` of media item `media_id`
/// (inserting it, or updating value and type of an existing one).
pub open spec fn set_attribute_sql() -> Seq<char> {
    "INSERT INTO media_attributes (media_id, key, value, value_type)
         VALUES (?1, ?2, ?3, ?4)
         ON CONFLICT(media_id, key) DO UPDATE SET
           value = ?3,
           value_type = ?4"@
}

/// The statement and parameters that set an attribute.
pub fn set_media_attribute_statement(media_id: i64, key: &str, value: Option<&str>, value_type: Option<AttributeValueType>)
    -> (r: (String, Vec<SqlParam>))
    ensures
        r.0@ == set_attribute_sql(),
        param_values(r.1@) == seq![
            SqlValue::Int(media_id),
            SqlValue::Text(key@),
            opt_text_value(match value { Some(v) => Some(v@), None => None }),
            SqlValue::Text(value_type_text(match value_type { Some(x) => x, None => AttributeValueType::String })),
        ],
{
    let mut p: Vec<SqlParam> = Vec::new();
    p.push(SqlParam::Int(media_id));
    p.push(SqlParam::Text(key.to_string()));
    p.push(match value {
        Some(v) => SqlParam::Text(v.to_string()),
        None => SqlParam::Null,
    });
    p.push(SqlParam::Text(value_type_str(value_type).to_string()));
    let sql = "INSERT INTO media_attributes (media_id, key, value, value_type)
         VALUES (?1, ?2, ?3, ?4)
         ON CONFLICT(media_id, key) DO UPDATE SET
           value = ?3,
           value_type = ?4".to_string();
    assert(param_values(p@) =~= seq![
        SqlValue::Int(media_id),
        SqlValue::Text(key@),
        opt_text_value(match value { Some(v) => Some(v@), None => None }),
        SqlValue::Text(value_type_text(match value_type { Some(x) => x, None => AttributeValueType::String })),
    ]);
    (sql, p)
}

/// The statement and parameters that delete attribute `key` of media item
/// `media_id`.
pub fn delete_media_attribute_statement(media_id: i64, key: &str) -> (r: (String, Vec<SqlParam>))
    ensures
        r.0@ == "DELETE FROM media_attributes WHERE media_id = ?1 AND key = ?2"@,
        param_values(r.1@) == seq![SqlValue::Int(media_id), SqlValue::Text(key@)],
{
    let mut p: Vec<SqlParam> = Vec::new();
    p.push(SqlParam::Int(media_id));
    p.push(SqlParam::Text(key.to_string()));
    assert(param_values(p@) =~= seq![SqlValue::Int(media_id), SqlValue::Text(key@)]);
    ("DELETE FROM media_attributes WHERE media_id = ?1 AND key = ?2".to_string(), p)
}

/// The statement and parameters that delete every attribute of media item
/// `media_id`.
pub fn delete_all_media_attributes_statement(media_id: i64) -> (r: (String, Vec<SqlParam>))
    ensures
        r.0@ == "DELETE FROM media_attributes WHERE media_id = ?1"@,
        param_values(r.1@) == seq![SqlValue::Int(media_id)],
{
    let mut p: Vec<SqlParam> = Vec::new();
    p.push(SqlParam::Int(media_id));
    assert(param_values(p@) =~= seq![SqlValue::Int(media_id)]);
    ("DELETE FROM media_attributes WHERE media_id = ?1".to_string(), p)
}

fn run(conn: &rusqlite::Connection, st: (String, Vec<SqlParam>)) -> (r: Result<(), KijukuError>)
    ensures
        r is Ok || r matches Err(KijukuError::Database(_)),
{
    match execute_statement(conn, st.0.as_str(), st.1.as_slice()) {
        Ok(_) => Ok(()),
        Err(e) => Err(KijukuError::Database(e)),
    }
}

/// Sets attribute `key` of media item `media_id` (see
/// `set_media_attribute_statement`); a database error is passed on.
pub fn set_media_attribute(conn: &rusqlite::Connection, media_id: i64, key: &str, value: Option<&str>,
    value_type: Option<AttributeValueType>) -> (r: Result<(), KijukuError>)
    ensures
        r is Ok || r matches Err(KijukuError::Database(_)),
{
    run(conn, set_media_attribute_statement(media_id, key, value, value_type))
}

/// Deletes attribute `key` of media item `media_id`; a database error is
/// passed on.
pub fn delete_media_attribute(conn: &rusqlite::Connection, media_id: i64, key: &str) -> (r: Result<(), KijukuError>)
    ensures
        r is Ok || r matches Err(KijukuError::Database(_)),
{
    run(conn, delete_media_attribute_statement(media_id, key))
}

/// Deletes every attribute of media item `media_id`; a database error is
/// passed on.
pub fn delete_all_media_attributes(conn: &rusqlite::Connection, media_id: i64) -> (r: Result<(), KijukuError>)
    ensures
        r is Ok || r matches Err(KijukuError::Database(_)),
{
    run(conn, delete_all_media_attributes_statement(media_id))
}

/// A text column: its text, or the message of the error.
pub open spec fn text_column(row: Map<Seq<char>, SqlValue>, col: Seq<char>) -> Result<Seq<char>, Seq<char>> {
    if !row.contains_key(col) { Err(missing_text(col)) } else { text_of(row[col], col, "text"@) }
}

/// An integer column: its value, or the message of the error.
pub open spec fn int_column(row: Map<Seq<char>, SqlValue>, col: Seq<char>) -> Result<int, Seq<char>> {
    if !row.contains_key(col) { Err(missing_text(col)) } else { int_of(row[col], col) }
}

/// An optional text column: absent or NULL gives `None`.
pub open spec fn opt_text_column(row: Map<Seq<char>, SqlValue>, col: Seq<char>) -> Result<Option<Seq<char>>, Seq<char>> {
    if !row.contains_key(col) || row[col] == SqlValue::Null {
        Ok(None)
    } else {
        match text_of(row[col], col, "text/null"@) {
            Ok(s) => Ok(Some(s)),
            Err(e) => Err(e),
        }
    }
}

/// The attribute a row holds, or the message of the first bad column
/// (`value_type`, `media_id`, `key`, `value`, in that order).
pub open spec fn attribute_of_row(row: Map<Seq<char>, SqlValue>) -> Result<MediaAttributeView, Seq<char>> {
    match text_column(row, "value_type"@) {
        Err(e) => Err(e),
        Ok(vt) => match int_column(row, "media_id"@) {
            Err(e) => Err(e),
            Ok(id) => match text_column(row, "key"@) {
                Err(e) => Err(e),
                Ok(k) => match opt_text_column(row, "value"@) {
                    Err(e) => Err(e),
                    Ok(v) => Ok(MediaAttributeView { media_id: id as i64, key: k, value: v, value_type: value_type_of(vt) }),
                },
            },
        },
    }
}

/// Reads the attribute of a result row (see `attribute_of_row`).
pub fn row_to_media_attribute(row: &SqlRow) -> (r: Result<MediaAttribute, KijukuError>)
    requires
        row.wf(),
    ensures
        match r {
            Ok(a) => attribute_of_row(row@) == Ok::<MediaAttributeView, Seq<char>>(a@),
            Err(e) => attribute_of_row(row@) matches Err(m) && parse_text(e) == Some(m),
        },
{
    proof {
        reveal_strlit("integer");
        reveal_strlit("boolean");
    }
    let vt = match row.get_text("value_type") {
        Ok(s) => s,
        Err(e) => return Err(e),
    };
    let value_type = if str_eq(vt.as_str(), "integer") {
        AttributeValueType::Integer
    } else if str_eq(vt.as_str(), "boolean") {
        AttributeValueType::Boolean
    } else {
        AttributeValueType::String
    };
    let media_id = match row.get_int("media_id") {
        Ok(i) => i,
        Err(e) => return Err(e),
    };
    let key = match row.get_text("key") {
        Ok(s) => s,
        Err(e) => return Err(e),
    };
    let value = match row.get_opt_text("value") {
        Ok(v) => v,
        Err(e) => return Err(e),
    };
    Ok(MediaAttribute { media_id, key, value, value_type })
}

/// The attributes of result rows, in order; the first bad row's error.
pub open spec fn attributes_of_rows(rows: Seq<SqlRow>) -> Result<Seq<MediaAttributeView>, Seq<char>>
    decreases rows.len(),
{
    if rows.len() == 0 {
        Ok(Seq::empty())
    } else {
        match attributes_of_rows(rows.drop_last()) {
            Err(e) => Err(e),
            Ok(prev) => match attribute_of_row(rows.last()@) {
                Err(e) => Err(e),
                Ok(a) => Ok(prev.push(a)),
            },
        }
    }
}

/// The views of a sequence of attributes, in order.
pub open spec fn attribute_views(s: Seq<MediaAttribute>) -> Seq<MediaAttributeView> {
    s.map_values(|a: MediaAttribute| a@)
}

/// Reads the attributes of result rows (see `attributes_of_rows`).
pub fn rows_to_media_attributes(rows: &Vec<SqlRow>) -> (r: Result<Vec<MediaAttribute>, KijukuError>)
    requires
        forall|i: int| 0 <= i < rows@.len() ==> (#[trigger] rows@[i]).wf(),
    ensures
        match r {
            Ok(v) => attributes_of_rows(rows@) == Ok::<Seq<MediaAttributeView>, Seq<char>>(attribute_views(v@)),
            Err(e) => attributes_of_rows(rows@) matches Err(m) && parse_text(e) == Some(m),
        },
{
    let mut out: Vec<MediaAttribute> = Vec::new();
    let mut i: usize = 0;
    proof {
        assert(rows@.take(0) =~= Seq::<SqlRow>::empty());
        assert(attribute_views(out@) =~= Seq::<MediaAttributeView>::empty());
    }
    while i < rows.len()
        invariant
            i <= rows@.len(),
            forall|k: int| 0 <= k < rows@.len() ==> (#[trigger] rows@[k]).wf(),
            out@.len() == i,
            attributes_of_rows(rows@.take(i as int)) == Ok::<Seq<MediaAttributeView>, Seq<char>>(attribute_views(out@)),
        decreases rows@.len() - i,
    {
        let ghost before = out@;
        proof {
            let t = rows@.take(i + 1);
            assert(t.drop_last() =~= rows@.take(i as int));
            assert(t.last() == rows@[i as int]);
        }
        match row_to_media_attribute(&rows[i]) {
            Ok(a) => {
                out.push(a);
                assert(attribute_views(out@) =~= attribute_views(before).push(out@[i as int]@));
            },
            Err(e) => {
                proof {
                    lemma_attributes_err_extends(rows@, (i + 1) as int);
                }
                return Err(e);
            },
        }
        i = i + 1;
    }
    assert(rows@.take(rows@.len() as int) =~= rows@);
    Ok(out)
}

proof fn lemma_attributes_err_extends(rows: Seq<SqlRow>, n: int)
    requires
        0 < n <= rows.len(),
        attributes_of_rows(rows.take(n)) is Err,
    ensures
        attributes_of_rows(rows) == attributes_of_rows(rows.take(n)),
    decreases rows.len() - n,
{
    if n < rows.len() {
        let t = rows.take(n + 1);
        assert(t.drop_last() =~= rows.take(n));
        lemma_attributes_err_extends(rows, n + 1);
    } else {
        assert(rows.take(n) =~= rows);
    }
}

/// The attribute of the first result row, if there is one.
pub fn first_media_attribute(rows: &Vec<SqlRow>) -> (r: Result<Option<MediaAttribute>, KijukuError>)
    requires
        forall|i: int| 0 <= i < rows@.len() ==> (#[trigger] rows@[i]).wf(),
    ensures
        rows@.len() == 0 ==> r matches Ok(None),
        rows@.len() > 0 ==> match r {
            Ok(v) => v matches Some(a) && attribute_of_row(rows@[0]@) == Ok::<MediaAttributeView, Seq<char>>(a@),
            Err(e) => attribute_of_row(rows@[0]@) matches Err(m) && parse_text(e) == Some(m),
        },
{
    if rows.len() == 0 {
        return Ok(None);
    }
    match row_to_media_attribute(&rows[0]) {
        Ok(a) => Ok(Some(a)),
        Err(e) => Err(e),
    }
}

/// Attribute `key` of media item `media_id`, if it is set. A database error
/// is passed on; a row that cannot be read is a parse error.
pub fn get_media_attribute(conn: &rusqlite::Connection, media_id: i64, key: &str) -> (r: Result<Option<MediaAttribute>, KijukuError>)
    ensures
        r matches Ok(Some(a)) ==> exists|row: Map<Seq<char>, SqlValue>|
            attribute_of_row(row) == Ok::<MediaAttributeView, Seq<char>>(a@),
        r matches Err(e) ==> (e is Database) || (e is Parse),
{
    let mut p: Vec<SqlParam> = Vec::new();
    p.push(SqlParam::Int(media_id));
    p.push(SqlParam::Text(key.to_string()));
    let rows = match query(conn, "SELECT media_id, key, value, value_type
         FROM media_attributes
         WHERE media_id = ?1 AND key = ?2", p.as_slice()) {
        Ok(rows) => rows,
        Err(e) => return Err(e),
    };
    let r = first_media_attribute(&rows);
    proof {
        if r is Err {
            assert(parse_text(r->Err_0) is Some);
        }
    }
    r
}

/// Every attribute of media item `media_id`, ordered by key. A database
/// error is passed on; a row that cannot be read is a parse error.
pub fn get_media_attributes(conn: &rusqlite::Connection, media_id: i64) -> (r: Result<Vec<MediaAttribute>, KijukuError>)
    ensures
        r matches Ok(v) ==> exists|rows: Seq<SqlRow>| attributes_of_rows(rows)
            == Ok::<Seq<MediaAttributeView>, Seq<char>>(attribute_views(v@)),
        r matches Err(e) ==> (e is Database) || (e is Parse),
{
    let mut p: Vec<SqlParam> = Vec::new();
    p.push(SqlParam::Int(media_id));
    let rows = match query(conn, "SELECT media_id, key, value, value_type
         FROM media_attributes
         WHERE media_id = ?1
         ORDER BY key", p.as_slice()) {
        Ok(rows) => rows,
        Err(e) => return Err(e),
    };
    let r = rows_to_media_attributes(&rows);
    proof {
        if r is Err {
            assert(parse_text(r->Err_0) is Some);
        }
    }
    r
}

} // verus!
