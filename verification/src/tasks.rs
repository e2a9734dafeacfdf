//! What a user does with the list: note a task, and look at the tasks.
//!
//! These operations are built on the two traits of a store alone, so they
//! hold for every store that keeps the contracts of the traits.

use crate::models::DBError;
use crate::models::DBReader;
use crate::models::DBRow;
use crate::models::DBWriter;
use crate::models::Record;
use crate::table::filter_by_completion;
use crate::table::is_sorted_copy;
use crate::table::lemma_completion_of_sorted_copy;
use crate::table::next_free_id;
use crate::table::records_of;
use crate::table::stored;
use crate::table::with_completion;
use vstd::prelude::*;

verus! {

/// The record of a task that is noted at time `now` in a table of `rows`: it
/// gets the next free id and is not completed.
pub open spec fn new_record(rows: Seq<Record>, task: Seq<char>, now: i64) -> Record {
    Record { id: next_free_id(rows), updatedate: now, task, completed: false }
}

/// Notes a new task at time `now` and returns its row.
///
/// The row gets the smallest free id and goes behind all stored rows; a
/// store without a table gets one.
pub fn add_task<S: DBWriter>(db: &mut S, task: String, now: i64) -> (r: Result<DBRow, DBError>)
    ensures
        r matches Ok(row) && row@ == new_record(stored(old(db).table()), task@, now),
        final(db).table() == Some(
            stored(old(db).table()).push(new_record(stored(old(db).table()), task@, now)),
        ),
{
    let id: u32 = db.get_next_id();
    let row = DBRow { id, updatedate: now, task, completed: false };
    match db.add(&row) {
        Ok(()) => Ok(row),
        Err(e) => Err(e),
    }
}

/// All tasks in order of id. A store without a table has no tasks: the
/// result is then empty, and no error.
pub fn list_all<S: DBReader>(db: &S) -> (rows: Vec<DBRow>)
    ensures
        is_sorted_copy(records_of(rows@), stored(db.table())),
        rows@.len() == stored(db.table()).len(),
{
    match db.read_all() {
        Ok(rows) => rows,
        Err(_) => {
            let rows: Vec<DBRow> = Vec::new();
            assert(records_of(rows@) =~= stored(db.table()));
            rows
        },
    }
}

/// The tasks whose completion flag is `completed`, in order of id.
pub fn list_filtered<S: DBReader>(db: &S, completed: bool) -> (rows: Vec<DBRow>)
    ensures
        is_sorted_copy(records_of(rows@), with_completion(stored(db.table()), completed)),
{
    let all = list_all(db);
    proof {
        lemma_completion_of_sorted_copy(records_of(all@), stored(db.table()), completed);
    }
    filter_by_completion(&all, completed)
}

} // verus!
