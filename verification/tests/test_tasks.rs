use std::path::PathBuf;

use todo_app::db_csv::DBCSV;
use todo_app::models::{DBError, DBReader, DBRow, DBWriter};
use todo_app::tasks::{add_task, list_all, list_filtered};

fn store() -> DBCSV {
    DBCSV::new(PathBuf::from("tasks.csv"))
}

fn ids(rows: &[DBRow]) -> Vec<u32> {
    rows.iter().map(|r| r.id).collect()
}

#[test]
fn add_task_makes_the_row_and_stores_it() {
    let mut db = store();
    let row = add_task(&mut db, "buy milk".to_string(), 1739126402).unwrap();
    assert_eq!(row.id, 1);
    assert_eq!(row.updatedate, 1739126402);
    assert_eq!(row.task, "buy milk");
    assert!(!row.completed);
    let stored = db.read_one(1).unwrap().unwrap();
    assert_eq!(stored.task, "buy milk");
    assert_eq!(stored.updatedate, 1739126402);
    assert!(!stored.completed);
}

#[test]
fn tasks_added_one_after_the_other_get_rising_ids() {
    let mut db = store();
    let mut last = 0;
    for n in 0..50 {
        let row = add_task(&mut db, format!("task {}", n), n).unwrap();
        assert!(row.id > last);
        assert_eq!(row.id, n as u32 + 1);
        last = row.id;
    }
    assert_eq!(ids(&list_all(&db)), (1..=50).collect::<Vec<u32>>());
}

#[test]
fn tasks_added_into_gaps_get_rising_ids() {
    let mut db = store();
    for id in [2u32, 3, 6, 7, 9] {
        db.add(&DBRow { id, updatedate: 0, task: "old".to_string(), completed: false }).unwrap();
    }
    let mut given = Vec::new();
    for n in 0..6 {
        given.push(add_task(&mut db, "new".to_string(), n).unwrap().id);
    }
    assert_eq!(given, vec![1, 4, 5, 8, 10, 11]);
}

#[test]
fn a_removed_task_is_not_found_and_its_id_is_given_out_again() {
    let mut db = store();
    add_task(&mut db, "a".to_string(), 1).unwrap();
    let row = add_task(&mut db, "b".to_string(), 2).unwrap();
    add_task(&mut db, "c".to_string(), 3).unwrap();
    assert_eq!(row.id, 2);
    db.delete(row.id).unwrap();
    assert!(db.read_one(row.id).unwrap().is_none());
    assert_eq!(db.get_next_id(), 2);
    let again = add_task(&mut db, "d".to_string(), 4).unwrap();
    assert_eq!(again.id, 2);
    assert_eq!(db.read_one(2).unwrap().unwrap().task, "d");
}

#[test]
fn add_two_delete_the_first_add_again_gives_id_1_again() {
    let mut db = store();
    let milk = add_task(&mut db, "buy milk".to_string(), 100).unwrap();
    assert_eq!(milk.id, 1);
    assert!(!milk.completed);
    let dog = add_task(&mut db, "walk dog".to_string(), 101).unwrap();
    assert_eq!(dog.id, 2);
    assert!(db.delete(1).is_ok());
    let rows = list_all(&db);
    assert_eq!(ids(&rows), vec![2]);
    assert_eq!(rows[0].task, "walk dog");
    let book = add_task(&mut db, "read book".to_string(), 102).unwrap();
    assert_eq!(book.id, 1);
    assert_eq!(ids(&list_all(&db)), vec![1, 2]);
}

#[test]
fn when_the_ids_have_run_out_new_tasks_share_id_1() {
    let mut db = store();
    for n in 0..999 {
        let row = add_task(&mut db, "t".to_string(), n).unwrap();
        assert_eq!(row.id, n as u32 + 1);
    }
    assert_eq!(add_task(&mut db, "over".to_string(), 0).unwrap().id, 1);
    assert_eq!(add_task(&mut db, "over again".to_string(), 0).unwrap().id, 1);
    assert_eq!(list_all(&db).len(), 1001);
}

#[test]
fn list_all_of_a_store_without_table_is_empty() {
    let db = store();
    assert!(matches!(db.read_all(), Err(DBError::EmptyDB)));
    assert!(list_all(&db).is_empty());
    assert!(list_filtered(&db, true).is_empty());
    assert!(list_filtered(&db, false).is_empty());
}

#[test]
fn list_all_of_a_new_table_is_empty() {
    let mut db = store();
    db.create_db().unwrap();
    assert!(list_all(&db).is_empty());
}

#[test]
fn list_filtered_gives_the_tasks_of_one_flag_in_order_of_id() {
    let mut db = store();
    for (id, done) in [(4u32, true), (1, false), (3, true), (2, false), (5, true)] {
        db.add(&DBRow { id, updatedate: 0, task: format!("t{}", id), completed: done }).unwrap();
    }
    assert_eq!(ids(&list_all(&db)), vec![1, 2, 3, 4, 5]);
    assert_eq!(ids(&list_filtered(&db, true)), vec![3, 4, 5]);
    assert_eq!(ids(&list_filtered(&db, false)), vec![1, 2]);
    db.mark_completion(2, true, 9).unwrap();
    assert_eq!(ids(&list_filtered(&db, true)), vec![2, 3, 4, 5]);
    assert_eq!(ids(&list_filtered(&db, false)), vec![1]);
}
