//! The store of tasks behind one file of delimited text.
//!
//! A `DBCSV` holds the table of one file while a program works on it. It is
//! made for a path, takes the text of the file with `load`, and gives the
//! text to write back with `to_bytes`. Between the two it is the table: the
//! file is read and written by the program that uses it.

use crate::codec::decode_table;
use crate::codec::encode_table;
use crate::codec::table_of_text;
use crate::codec::text_of_table;
use crate::models::DBError;
use crate::models::DBReader;
use crate::models::DBRow;
use crate::models::DBWriter;
use crate::models::Record;
use crate::storage::FileRead;
use crate::table::find_first;
use crate::table::has_id;
use crate::table::lemma_has_id_iff_found;
use crate::table::lemma_id_absent;
use crate::table::lemma_least_free_is_next;
use crate::table::records_of;
use crate::table::remove_all;
use crate::table::smallest_free_id;
use crate::table::sorted_copy;
use crate::table::stored;
use crate::table::with_id;
use crate::table::without_id;
use std::path::PathBuf;
use vstd::prelude::*;

verus! {

/// A path of the file system. Nothing is known of what a value of it holds.
#[verifier::external_type_specification]
#[verifier::external_body]
pub struct ExPathBuf(PathBuf);

/// The tasks of one file.
pub struct DBCSV {
    path: PathBuf,
    rows: Option<Vec<DBRow>>,
}

impl DBCSV {
    /// The path that the store was made for.
    pub closed spec fn location(&self) -> PathBuf {
        self.path
    }

    /// A store for the file at `path`, of which nothing has been read: it
    /// has no table yet.
    pub fn new(path: PathBuf) -> (db: Self)
        ensures
            db.location() == path,
            db.table() is None,
    {
        DBCSV { path, rows: None }
    }

    /// The store of the file at `path`, from what reading the file gave.
    ///
    /// A file that is not there is a store without a table. A file that
    /// could not be read, or whose text is not a table, is a `ReadError`.
    pub fn open(path: PathBuf, read: FileRead) -> (r: Result<Self, DBError>)
        ensures
            match read {
                FileRead::Missing => r matches Ok(db) && db.location() == path && db.table()
                    is None,
                FileRead::Text(data) => match table_of_text(data@) {
                    Some(t) => r matches Ok(db) && db.location() == path && db.table() == Some(t),
                    None => r matches Err(DBError::ReadError(_)),
                },
                FileRead::Failed(message) => r matches Err(DBError::ReadError(m)) && m@
                    == message@,
            },
    {
        let mut db = DBCSV::new(path);
        match read {
            FileRead::Missing => Ok(db),
            FileRead::Text(data) => match db.load(data.as_slice()) {
                Ok(()) => Ok(db),
                Err(e) => Err(e),
            },
            FileRead::Failed(message) => Err(DBError::ReadError(message)),
        }
    }

    /// The path of the file.
    pub fn path(&self) -> (path: &PathBuf)
        ensures
            *path == self.location(),
    {
        &self.path
    }

    /// Takes the text of the file as the table of this store.
    ///
    /// A text without any line is the empty table. A text whose first line
    /// is not the header, or in which any line is not the line of a task, is
    /// refused with `ReadError`, and the store stays as it was.
    pub fn load(&mut self, data: &[u8]) -> (r: Result<(), DBError>)
        ensures
            final(self).location() == old(self).location(),
            match r {
                Ok(()) => table_of_text(data@) is Some && final(self).table() == table_of_text(
                    data@,
                ),
                Err(e) => e is ReadError && table_of_text(data@) is None && final(self).table()
                    == old(self).table(),
            },
    {
        match decode_table(data) {
            Ok(rows) => {
                self.rows = Some(rows);
                Ok(())
            },
            Err(e) => Err(e),
        }
    }

    /// The text of the file for the table of this store: the header line,
    /// then the line of each row in stored order.
    ///
    /// `EmptyDB` without a table; with one there is no error.
    pub fn to_bytes(&self) -> (r: Result<Vec<u8>, DBError>)
        ensures
            match self.table() {
                Some(t) => r matches Ok(text) && text@ == text_of_table(t),
                None => r matches Err(DBError::EmptyDB),
            },
    {
        match &self.rows {
            Some(rows) => encode_table(rows),
            None => Err(DBError::new_dbnotexist_error()),
        }
    }

    /// Rewrites the table without the rows that have this id, and says how
    /// many rows that were. None is no error: the table is then as it was.
    /// `EmptyDB` without a table.
    pub fn rewrite_without(&mut self, id: u32) -> (r: Result<usize, DBError>)
        ensures
            final(self).location() == old(self).location(),
            match old(self).table() {
                None => r matches Err(DBError::EmptyDB) && final(self).table() is None,
                Some(t) => r matches Ok(removed) && removed == with_id(t, id).len()
                    && final(self).table() == Some(without_id(t, id)),
            },
    {
        let (kept, removed): (Vec<DBRow>, usize) = match &self.rows {
            Some(rows) => remove_all(rows, id),
            None => {
                return Err(DBError::new_dbnotexist_error());
            },
        };
        self.rows = Some(kept);
        Ok(removed)
    }

    /// Whether there is no table yet to put a row into.
    fn db_is_empty(&self) -> (empty: bool)
        ensures
            empty == (self.table() is None),
    {
        self.rows.is_none()
    }
}

impl DBReader for DBCSV {
    closed spec fn table(&self) -> Option<Seq<Record>> {
        match self.rows {
            Some(rows) => Some(records_of(rows@)),
            None => None,
        }
    }

    fn read_all(&self) -> (r: Result<Vec<DBRow>, DBError>) {
        match &self.rows {
            Some(rows) => Ok(sorted_copy(rows)),
            None => Err(DBError::new_dbnotexist_error()),
        }
    }

    fn read_one(&self, id: u32) -> (r: Result<Option<DBRow>, DBError>) {
        match &self.rows {
            Some(rows) => Ok(find_first(rows, id)),
            None => Err(DBError::new_dbnotexist_error()),
        }
    }

    fn get_next_id(&self) -> (id: u32) {
        match &self.rows {
            Some(rows) => smallest_free_id(rows),
            None => {
                proof {
                    lemma_least_free_is_next(Seq::<Record>::empty(), 1);
                }
                1
            },
        }
    }
}

impl DBWriter for DBCSV {
    fn add(&mut self, r: &DBRow) -> (res: Result<(), DBError>)
        ensures
            final(self).location() == old(self).location(),
    {
        if self.db_is_empty() {
            match self.create_db() {
                Ok(()) => {},
                Err(e) => {
                    return Err(e);
                },
            }
        }
        let ghost before = stored(self.table());
        let mut rows = match self.rows.take() {
            Some(rows) => rows,
            None => Vec::new(),
        };
        rows.push(r.clone());
        assert(records_of(rows@) =~= before.push(r@));
        self.rows = Some(rows);
        Ok(())
    }

    fn create_db(&mut self) -> (res: Result<(), DBError>)
        ensures
            final(self).location() == old(self).location(),
    {
        let rows: Vec<DBRow> = Vec::new();
        assert(records_of(rows@) =~= Seq::<Record>::empty());
        self.rows = Some(rows);
        Ok(())
    }

    fn delete(&mut self, id: u32) -> (res: Result<(), DBError>)
        ensures
            final(self).location() == old(self).location(),
    {
        proof {
            lemma_has_id_iff_found(stored(self.table()), id);
            if !has_id(stored(self.table()), id) {
                lemma_id_absent(stored(self.table()), id);
            }
        }
        let removed: usize = match self.rewrite_without(id) {
            Ok(n) => n,
            Err(e) => {
                return Err(e);
            },
        };
        if removed == 0 {
            return Err(DBError::new_idnotfound_error());
        }
        Ok(())
    }

    fn mark_completion(&mut self, id: u32, complete: bool, now: i64) -> (res: Result<(), DBError>)
        ensures
            final(self).location() == old(self).location(),
    {
        let found = match self.read_one(id) {
            Ok(found) => found,
            Err(e) => {
                return Err(e);
            },
        };
        match found {
            Some(mut v) => {
                v.completed = complete;
                v.updatedate = now;
                match self.delete(id) {
                    Ok(()) => {},
                    Err(e) => {
                        return Err(e);
                    },
                }
                match self.add(&v) {
                    Ok(()) => {},
                    Err(e) => {
                        return Err(e);
                    },
                }
            },
            None => {
                return Err(DBError::new_idnotfound_error());
            },
        }
        Ok(())
    }
}

} // verus!
