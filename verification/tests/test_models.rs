use std::cmp::Ordering;

use todo_app::models::{DBError, DBRow};

fn task(id: u32, updatedate: i64, text: &str, completed: bool) -> DBRow {
    DBRow { id, updatedate, task: text.to_string(), completed }
}

#[test]
fn rows_are_equal_when_their_ids_are() {
    let a = task(1, 10, "one", false);
    let b = task(1, 20, "other", true);
    let c = task(2, 10, "one", false);
    assert!(a == b);
    assert!(a != c);
    assert!(!(a == c));
}

#[test]
fn rows_are_ordered_by_id_alone() {
    let a = task(1, 30, "z", true);
    let b = task(2, 10, "a", false);
    let same = task(2, 99, "b", true);
    assert!(a < b);
    assert!(b > a);
    assert!(b <= same);
    assert!(b >= same);
    assert_eq!(a.partial_cmp(&b), Some(Ordering::Less));
    assert_eq!(b.partial_cmp(&a), Some(Ordering::Greater));
    assert_eq!(b.partial_cmp(&same), Some(Ordering::Equal));
    assert_eq!(a.cmp(&b), Ordering::Less);
    assert_eq!(b.cmp(&a), Ordering::Greater);
    assert_eq!(b.cmp(&same), Ordering::Equal);
}

#[test]
fn a_cloned_row_has_all_fields_of_the_row() {
    let a = task(4, -7, "water the plants", true);
    let b = a.clone();
    assert_eq!(b.id, 4);
    assert_eq!(b.updatedate, -7);
    assert_eq!(b.task, "water the plants");
    assert!(b.completed);
}

#[test]
fn errors_are_made_with_their_messages() {
    assert!(matches!(DBError::new_read_error("bad line"), DBError::ReadError(m) if m == "bad line"));
    assert!(matches!(DBError::new_write_error("disk full"), DBError::WriteError(m) if m == "disk full"));
    assert!(matches!(DBError::new_dbnotexist_error(), DBError::EmptyDB));
    assert!(matches!(DBError::new_idnotfound_error(), DBError::IDNotFound));
}

#[test]
fn errors_are_shown_with_their_kind_in_front() {
    assert_eq!(DBError::new_read_error("bad line").to_string(), "read error: bad line");
    assert_eq!(DBError::new_write_error("disk full").to_string(), "write error: disk full");
    assert_eq!(DBError::new_read_error("").to_string(), "read error: ");
    assert_eq!(DBError::new_dbnotexist_error().to_string(), "database empty");
    assert_eq!(DBError::new_idnotfound_error().to_string(), "id was not found");
}
