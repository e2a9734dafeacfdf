//! A single-user task list kept as a table of semicolon-delimited text.
//!
//! The library holds the table and its rules: the records and how they are
//! found, removed and put in order, the ids that new tasks get, the text
//! form of the table, and the steps by which the file of the table is
//! replaced. It touches no file itself: the program around it reads and
//! writes, and hands the bytes over.
//!
//! - `models`: the task row, the errors, and the two traits of a store.
//! - `table`: the table as a sequence of records, and the functions on it.
//! - `db_csv`: the store of one file.
//! - `tasks`: noting and listing tasks, for every store.
//! - `codec`, `decimal`, `csv_text`: rows to fields, numbers to digits,
//!   fields to delimited text.
//! - `storage`: what reading the file gave, and how the file is replaced.
//! - `laws`: what holds of all of it.

pub mod codec;
pub mod csv_text;
pub mod db_csv;
pub mod decimal;
pub mod laws;
pub mod models;
pub mod storage;
pub mod table;
pub mod tasks;
