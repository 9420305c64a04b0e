//! Running queries on a local SQLite connection and reading their result
//! rows as column maps.
use vstd::prelude::*;
use crate::crud::SqlParam;
use crate::db_value::SqlRow;
use crate::error::KijukuError;
use crate::text::push_str;

verus! {

broadcast use vstd::std_specs::vec::group_vec_axioms;

#[verifier::external_type_specification]
#[verifier::external_body]
pub struct ExDriverValue(rusqlite::types::Value);

/// The driver's value for a parameter: the `rusqlite::types::Value` of the
/// same kind holding the same integer, text or bytes (nothing is stated of
/// the result, which Verus cannot see into).
#[verifier::external_body]
fn driver_value(p: &SqlParam) -> (v: rusqlite::types::Value) {
    match p {
        SqlParam::Null => rusqlite::types::Value::Null,
        SqlParam::Int(i) => rusqlite::types::Value::Integer(*i),
        SqlParam::Text(s) => rusqlite::types::Value::Text(s.clone()),
        SqlParam::Blob(b) => rusqlite::types::Value::Blob(b.clone()),
    }
}

/// The parameter for a value read from the driver, of the same kind;
/// `None` for a REAL, which parameters do not hold. What the value holds is
/// not stated: Verus cannot see into it.
#[verifier::external_body]
fn cell_param(v: &rusqlite::types::Value) -> (p: Option<SqlParam>) {
    match v {
        rusqlite::types::Value::Null => Some(SqlParam::Null),
        rusqlite::types::Value::Integer(i) => Some(SqlParam::Int(*i)),
        rusqlite::types::Value::Real(_) => None,
        rusqlite::types::Value::Text(s) => Some(SqlParam::Text(s.clone())),
        rusqlite::types::Value::Blob(b) => Some(SqlParam::Blob(b.clone())),
    }
}

/// Runs query `sql` with `values` on `conn`: the column names and every
/// result row (one value per column), or the driver's error as text.
///
/// Calls `rusqlite::Connection::prepare`, `Statement::column_names` and
/// `Statement::query_map`; which rows come back depends on the database and
/// is not stated.
#[verifier::external_body]
fn query_cells(conn: &rusqlite::Connection, sql: &str, values: &Vec<rusqlite::types::Value>)
    -> (r: Result<(Vec<String>, Vec<Vec<rusqlite::types::Value>>), String>)
    ensures
        r matches Ok((names, rows)) ==> forall|j: int| 0 <= j < rows@.len() ==> (#[trigger] rows@[j])@.len() == names@.len(),
{
    let mut stmt = conn.prepare(sql).map_err(|e| e.to_string())?;
    let names: Vec<String> = stmt.column_names().iter().map(|c| c.to_string()).collect();
    let n = names.len();
    let rows = stmt
        .query_map(rusqlite::params_from_iter(values.iter()), |row| (0..n).map(|i| row.get::<usize, rusqlite::types::Value>(i)).collect())
        .and_then(|rows| rows.collect::<rusqlite::Result<Vec<Vec<rusqlite::types::Value>>>>());
    Ok((names, rows.map_err(|e| e.to_string())?))
}

/// Runs query `sql` with `params` on `conn` and reads every result row as a
/// column map (a column named twice keeps its last value). A driver error
/// is a database error; a REAL value, which column maps do not hold, is a
/// parse error naming its column.
pub fn query(conn: &rusqlite::Connection, sql: &str, params: &[SqlParam]) -> (r: Result<Vec<SqlRow>, KijukuError>)
    ensures
        r matches Ok(rows) ==> forall|i: int| 0 <= i < rows@.len() ==> (#[trigger] rows@[i]).wf(),
        r matches Err(e) ==> (e is Database) || (e is Parse),
        r matches Err(KijukuError::Parse(m)) ==> exists|col: Seq<char>| m@ == "unsupported REAL value in column "@ + col,
{
    let mut values: Vec<rusqlite::types::Value> = Vec::new();
    let mut k: usize = 0;
    while k < params.len()
        invariant
            k <= params@.len(),
        decreases params@.len() - k,
    {
        values.push(driver_value(&params[k]));
        k = k + 1;
    }
    let (names, cells) = match query_cells(conn, sql, &values) {
        Ok(nc) => nc,
        Err(e) => return Err(KijukuError::Database(e)),
    };
    let mut out: Vec<SqlRow> = Vec::new();
    let mut j: usize = 0;
    while j < cells.len()
        invariant
            j <= cells@.len(),
            forall|x: int| 0 <= x < cells@.len() ==> (#[trigger] cells@[x])@.len() == names@.len(),
            forall|i: int| 0 <= i < out@.len() ==> (#[trigger] out@[i]).wf(),
        decreases cells@.len() - j,
    {
        let mut row = SqlRow::new();
        let mut i: usize = 0;
        while i < names.len()
            invariant
                i <= names@.len(),
                j < cells@.len(),
                cells@[j as int]@.len() == names@.len(),
                row.wf(),
            decreases names@.len() - i,
        {
            match cell_param(&cells[j][i]) {
                Some(p) => row.set(names[i].as_str(), p),
                None => {
                    let mut m = String::new();
                    push_str(&mut m, "unsupported REAL value in column ");
                    push_str(&mut m, names[i].as_str());
                    assert(m@ =~= "unsupported REAL value in column "@ + names@[i as int]@);
                    return Err(KijukuError::Parse(m));
                },
            }
            i = i + 1;
        }
        out.push(row);
        j = j + 1;
    }
    Ok(out)
}

} // verus!
