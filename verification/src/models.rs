//! The task record and the errors of the store.

use crate::table::first_with_id;
use crate::table::is_sorted_copy;
use crate::table::marked;
use crate::table::next_free_id;
use crate::table::records_of;
use crate::table::stored;
use crate::table::without_id;
use std::cmp::Ordering;
use vstd::prelude::*;
use vstd::std_specs::cmp::PartialEqSpecImpl;
use vstd::std_specs::cmp::PartialOrdSpecImpl;

verus! {

/// The mathematical value of a stored task: what a [`DBRow`] stands for.
pub struct Record {
    pub id: u32,
    pub updatedate: i64,
    pub task: Seq<char>,
    pub completed: bool,
}

/// One task of the list.
///
/// Two rows are taken for the same task when their ids agree, whatever the
/// other fields hold, and rows are ordered by id alone.
#[derive(Debug, Eq)]
pub struct DBRow {
    pub id: u32,
    pub updatedate: i64,
    pub task: String,
    pub completed: bool,
}

impl View for DBRow {
    type V = Record;

    open spec fn view(&self) -> Record {
        Record {
            id: self.id,
            updatedate: self.updatedate,
            task: self.task@,
            completed: self.completed,
        }
    }
}

impl Clone for DBRow {
    fn clone(&self) -> (r: Self)
        ensures
            r@ == self@,
    {
        DBRow {
            id: self.id,
            updatedate: self.updatedate,
            task: self.task.clone(),
            completed: self.completed,
        }
    }
}

impl DBRow {
    /// Compares two rows by their ids.
    pub fn cmp(&self, other: &Self) -> (r: Ordering)
        ensures
            r == if self.id < other.id {
                Ordering::Less
            } else if self.id == other.id {
                Ordering::Equal
            } else {
                Ordering::Greater
            },
    {
        if self.id < other.id {
            Ordering::Less
        } else if self.id == other.id {
            Ordering::Equal
        } else {
            Ordering::Greater
        }
    }
}

impl PartialEq for DBRow {
    fn eq(&self, other: &Self) -> (r: bool) {
        self.id == other.id
    }
}

impl PartialEqSpecImpl for DBRow {
    open spec fn obeys_eq_spec() -> bool {
        true
    }

    open spec fn eq_spec(&self, other: &Self) -> bool {
        self.id == other.id
    }
}

impl PartialOrd for DBRow {
    fn partial_cmp(&self, other: &Self) -> (r: Option<Ordering>) {
        Some(self.cmp(other))
    }
}

impl PartialOrdSpecImpl for DBRow {
    open spec fn obeys_partial_cmp_spec() -> bool {
        true
    }

    open spec fn partial_cmp_spec(&self, other: &Self) -> Option<Ordering> {
        if self.id < other.id {
            Some(Ordering::Less)
        } else if self.id == other.id {
            Some(Ordering::Equal)
        } else {
            Some(Ordering::Greater)
        }
    }
}

/// Reading a store of tasks.
pub trait DBReader {
    /// The records of the table in the order in which it holds them, or
    /// `None` while there is no table yet.
    spec fn table(&self) -> Option<Seq<Record>>;

    /// All rows in order of id, rows of equal id in their stored order.
    /// Without a table there is nothing to read: `EmptyDB`.
    fn read_all(&self) -> (r: Result<Vec<DBRow>, DBError>)
        ensures
            match r {
                Ok(rows) => self.table() matches Some(t) && is_sorted_copy(records_of(rows@), t)
                    && rows@.len() == t.len(),
                Err(e) => e is EmptyDB && self.table() is None,
            },
    ;

    /// The first stored row with this id, or `None` when no row has it.
    /// Without a table there is nothing to read: `EmptyDB`.
    fn read_one(&self, id: u32) -> (r: Result<Option<DBRow>, DBError>)
        ensures
            match r {
                Ok(Some(row)) => self.table() matches Some(t) && first_with_id(t, id) == Some(
                    row@,
                ),
                Ok(None) => self.table() matches Some(t) && first_with_id(t, id) is None,
                Err(e) => e is EmptyDB && self.table() is None,
            },
    ;

    /// The id for the next new row: the smallest free one, 1 without a table.
    fn get_next_id(&self) -> (id: u32)
        ensures
            id == next_free_id(stored(self.table())),
    ;
}

/// Changing a store of tasks.
pub trait DBWriter: DBReader {
    /// Puts the row behind all stored rows, in a new table when there is
    /// none yet. The id of the row is taken as it is.
    fn add(&mut self, r: &DBRow) -> (res: Result<(), DBError>)
        ensures
            res is Ok,
            final(self).table() == Some(stored(old(self).table()).push(r@)),
    ;

    /// Starts a new, empty table, in place of the one there may be.
    fn create_db(&mut self) -> (res: Result<(), DBError>)
        ensures
            res is Ok,
            final(self).table() == Some(Seq::<Record>::empty()),
    ;

    /// Takes every row with this id out of the table. `IDNotFound` when no
    /// row has the id, `EmptyDB` without a table; the store is then as it
    /// was.
    fn delete(&mut self, id: u32) -> (res: Result<(), DBError>)
        ensures
            match old(self).table() {
                None => res matches Err(DBError::EmptyDB) && final(self).table() is None,
                Some(t) => match first_with_id(t, id) {
                    None => res matches Err(DBError::IDNotFound) && final(self).table() == Some(
                        t,
                    ),
                    Some(_) => res is Ok && final(self).table() == Some(without_id(t, id)),
                },
            },
    ;

    /// Sets the completion flag of the task with this id, and its time of
    /// update to `now`. The first row with the id is the task; it moves
    /// behind all other rows, and any further row with the id is dropped.
    /// `IDNotFound` when no row has the id, `EmptyDB` without a table; the
    /// store is then as it was.
    fn mark_completion(&mut self, id: u32, complete: bool, now: i64) -> (res: Result<(), DBError>)
        ensures
            match old(self).table() {
                None => res matches Err(DBError::EmptyDB) && final(self).table() is None,
                Some(t) => match first_with_id(t, id) {
                    None => res matches Err(DBError::IDNotFound) && final(self).table() == Some(
                        t,
                    ),
                    Some(found) => res is Ok && final(self).table() == Some(
                        without_id(t, id).push(marked(found, complete, now)),
                    ),
                },
            },
    ;
}

/// What can go wrong when the store is read or changed.
#[derive(Debug)]
pub enum DBError {
    /// The table text could not be read: a record is malformed.
    ReadError(String),
    /// The text of the table could not be written to its file.
    WriteError(String),
    /// There is no table yet.
    EmptyDB,
    /// No stored record has the id that was asked for.
    IDNotFound,
}

impl DBError {
    /// The text of this error: its kind, and behind it the message where it
    /// has one.
    pub open spec fn text(self) -> Seq<char> {
        match self {
            DBError::ReadError(msg) => "read error: "@ + msg@,
            DBError::WriteError(msg) => "write error: "@ + msg@,
            DBError::EmptyDB => "database empty"@,
            DBError::IDNotFound => "id was not found"@,
        }
    }

    /// A `ReadError` with this message.
    pub fn new_read_error(msg: &str) -> (e: DBError)
        ensures
            e matches DBError::ReadError(m) && m@ == msg@,
    {
        DBError::ReadError(msg.to_owned())
    }

    /// A `WriteError` with this message.
    pub fn new_write_error(msg: &str) -> (e: DBError)
        ensures
            e matches DBError::WriteError(m) && m@ == msg@,
    {
        DBError::WriteError(msg.to_owned())
    }

    /// The error of a store that has no table yet.
    pub fn new_dbnotexist_error() -> (e: DBError)
        ensures
            e is EmptyDB,
    {
        DBError::EmptyDB
    }

    /// The error of an id that no stored row has.
    pub fn new_idnotfound_error() -> (e: DBError)
        ensures
            e is IDNotFound,
    {
        DBError::IDNotFound
    }

    /// The error as a line of text for the user.
    pub fn to_string(&self) -> (s: String)
        ensures
            s@ == self.text(),
    {
        match self {
            DBError::ReadError(msg) => "read error: ".to_owned().concat(msg.as_str()),
            DBError::WriteError(msg) => "write error: ".to_owned().concat(msg.as_str()),
            DBError::EmptyDB => "database empty".to_owned(),
            DBError::IDNotFound => "id was not found".to_owned(),
        }
    }
}

} // verus!
