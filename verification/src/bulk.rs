//! Creating, deleting and updating many media items at once, in
//! transactions of at most `DEFAULT_MAX_BATCH_SIZE` items each.
use vstd::prelude::*;
use crate::crud::{
    create_media, delete_media, update_media, execute_statement, read_from_some_row, created_missing_text,
    media_not_found_text, MediaUpdateInput, SqlParam,
};
use crate::error::KijukuError;
use crate::types::{Media, MediaInput};

verus! {

broadcast use vstd::std_specs::vec::group_vec_axioms;

/// Most items written in one transaction.
pub const DEFAULT_MAX_BATCH_SIZE: usize = 500;

/// One item of a bulk update: the id of the media item and its new fields.
pub struct BulkUpdateItem {
    pub id: i64,
    pub data: MediaUpdateInput,
}

fn run_plain(conn: &rusqlite::Connection, sql: &str) -> (r: Result<(), KijukuError>)
    ensures
        r is Ok || r matches Err(KijukuError::Database(_)),
{
    let none: Vec<SqlParam> = Vec::new();
    match execute_statement(conn, sql, none.as_slice()) {
        Ok(_) => Ok(()),
        Err(e) => Err(KijukuError::Database(e)),
    }
}

/// Ends a transaction that failed with `e`: rolls it back and hands `e` on.
fn abandon<T>(conn: &rusqlite::Connection, e: KijukuError) -> (r: Result<T, KijukuError>)
    ensures
        r == Err::<T, KijukuError>(e),
{
    let _ = run_plain(conn, "ROLLBACK");
    Err(e)
}

/// Creates the media items of `data_list` in order, a transaction for each
/// run of `DEFAULT_MAX_BATCH_SIZE`; the first failure rolls back its run
/// and is handed on (runs committed before it stay).
pub fn bulk_create_media(conn: &rusqlite::Connection, data_list: &[MediaInput]) -> (r: Result<Vec<Media>, KijukuError>)
    ensures
        r matches Ok(v) ==> v@.len() == data_list@.len()
            && forall|i: int| 0 <= i < v@.len() ==> read_from_some_row(#[trigger] v@[i]@),
        r matches Err(e) ==> (e is Database) || (e is Parse)
            || (e matches KijukuError::NotFound(msg) && msg@ == created_missing_text()),
        data_list@.len() == 0 ==> (r matches Ok(v) && v@.len() == 0),
{
    let mut results: Vec<Media> = Vec::new();
    let mut start: usize = 0;
    while start < data_list.len()
        invariant
            start <= data_list@.len(),
            results@.len() == start,
            forall|i: int| 0 <= i < results@.len() ==> read_from_some_row(#[trigger] results@[i]@),
        decreases data_list@.len() - start,
    {
        let end = if data_list.len() - start > DEFAULT_MAX_BATCH_SIZE { start + DEFAULT_MAX_BATCH_SIZE } else { data_list.len() };
        match run_plain(conn, "BEGIN") {
            Ok(()) => {},
            Err(e) => return Err(e),
        }
        let mut k = start;
        while k < end
            invariant
                start <= k <= end <= data_list@.len(),
                results@.len() == k,
                forall|i: int| 0 <= i < results@.len() ==> read_from_some_row(#[trigger] results@[i]@),
            decreases end - k,
        {
            match create_media(conn, &data_list[k]) {
                Ok(m) => results.push(m),
                Err(e) => return abandon(conn, e),
            }
            k = k + 1;
        }
        match run_plain(conn, "COMMIT") {
            Ok(()) => {},
            Err(e) => return abandon(conn, e),
        }
        start = end;
    }
    Ok(results)
}

/// Deletes the media items `ids` in order (see `delete_media`), a
/// transaction for each run of `DEFAULT_MAX_BATCH_SIZE`; the first failure
/// rolls back its run and is handed on.
pub fn bulk_delete_media(conn: &rusqlite::Connection, ids: &[i64]) -> (r: Result<(), KijukuError>)
    ensures
        r matches Err(KijukuError::NotFound(m)) ==> exists|i: int| 0 <= i < ids@.len() && m@ == media_not_found_text(#[trigger] ids@[i]),
        r is Err ==> (r matches Err(KijukuError::NotFound(_))) || (r matches Err(KijukuError::Database(_))),
        ids@.len() == 0 ==> r is Ok,
{
    let mut start: usize = 0;
    while start < ids.len()
        invariant
            start <= ids@.len(),
        decreases ids@.len() - start,
    {
        let end = if ids.len() - start > DEFAULT_MAX_BATCH_SIZE { start + DEFAULT_MAX_BATCH_SIZE } else { ids.len() };
        match run_plain(conn, "BEGIN") {
            Ok(()) => {},
            Err(e) => return Err(e),
        }
        let mut k = start;
        while k < end
            invariant
                start <= k <= end <= ids@.len(),
            decreases end - k,
        {
            match delete_media(conn, ids[k]) {
                Ok(()) => {},
                Err(e) => return abandon(conn, e),
            }
            k = k + 1;
        }
        match run_plain(conn, "COMMIT") {
            Ok(()) => {},
            Err(e) => return abandon(conn, e),
        }
        start = end;
    }
    Ok(())
}

/// Updates media items as `updates` list them, in order (see
/// `update_media`), a transaction for each run of `DEFAULT_MAX_BATCH_SIZE`;
/// the first failure rolls back its run and is handed on.
pub fn bulk_update_media(conn: &rusqlite::Connection, updates: &[BulkUpdateItem]) -> (r: Result<(), KijukuError>)
    ensures
        r matches Err(KijukuError::NotFound(m)) ==> exists|i: int| 0 <= i < updates@.len()
            && m@ == media_not_found_text(#[trigger] updates@[i].id),
        r matches Err(KijukuError::Validation(m)) ==> m@ == "UUID cannot be set to null."@ && exists|i: int|
            0 <= i < updates@.len() && (#[trigger] updates@[i]).data@.uuid == Some(None::<Seq<char>>),
        r is Err ==> (r matches Err(KijukuError::NotFound(_))) || (r matches Err(KijukuError::Validation(_)))
            || (r matches Err(KijukuError::Database(_))),
        updates@.len() == 0 ==> r is Ok,
{
    let mut start: usize = 0;
    while start < updates.len()
        invariant
            start <= updates@.len(),
        decreases updates@.len() - start,
    {
        let end = if updates.len() - start > DEFAULT_MAX_BATCH_SIZE { start + DEFAULT_MAX_BATCH_SIZE } else { updates.len() };
        match run_plain(conn, "BEGIN") {
            Ok(()) => {},
            Err(e) => return Err(e),
        }
        let mut k = start;
        while k < end
            invariant
                start <= k <= end <= updates@.len(),
            decreases end - k,
        {
            match update_media(conn, updates[k].id, &updates[k].data) {
                Ok(()) => {},
                Err(e) => return abandon(conn, e),
            }
            k = k + 1;
        }
        match run_plain(conn, "COMMIT") {
            Ok(()) => {},
            Err(e) => return abandon(conn, e),
        }
        start = end;
    }
    Ok(())
}

} // verus!
