use todo_app::models::DBRow;
use todo_app::table::{
    contains_id, filter_by_completion, find_first, remove_all, smallest_free_id, sorted_copy,
    ID_LIMIT,
};

fn task(id: u32, updatedate: i64, text: &str, completed: bool) -> DBRow {
    DBRow { id, updatedate, task: text.to_string(), completed }
}

fn texts(rows: &[DBRow]) -> Vec<String> {
    rows.iter().map(|r| r.task.clone()).collect()
}

fn sample() -> Vec<DBRow> {
    vec![
        task(3, 10, "c", false),
        task(1, 11, "a", true),
        task(2, 12, "b", false),
        task(1, 13, "a again", false),
    ]
}

#[test]
fn contains_id_says_whether_a_row_has_the_id() {
    let rows = sample();
    assert!(contains_id(&rows, 1));
    assert!(contains_id(&rows, 3));
    assert!(!contains_id(&rows, 4));
    assert!(!contains_id(&rows, 0));
    assert!(!contains_id(&Vec::new(), 1));
}

#[test]
fn find_first_returns_the_first_row_with_the_id() {
    let rows = sample();
    let found = find_first(&rows, 1).unwrap();
    assert_eq!(found.task, "a");
    assert_eq!(found.updatedate, 11);
    assert!(found.completed);
    assert_eq!(find_first(&rows, 2).unwrap().task, "b");
    assert!(find_first(&rows, 9).is_none());
    assert!(find_first(&Vec::new(), 1).is_none());
}

#[test]
fn remove_all_keeps_the_other_rows_in_order_and_counts() {
    let rows = sample();
    let (kept, removed) = remove_all(&rows, 1);
    assert_eq!(removed, 2);
    assert_eq!(texts(&kept), vec!["c", "b"]);
    let (kept, removed) = remove_all(&rows, 9);
    assert_eq!(removed, 0);
    assert_eq!(texts(&kept), vec!["c", "a", "b", "a again"]);
    let (kept, removed) = remove_all(&Vec::new(), 1);
    assert_eq!(removed, 0);
    assert!(kept.is_empty());
}

#[test]
fn filter_by_completion_keeps_the_rows_of_one_flag_in_order() {
    let rows = sample();
    assert_eq!(texts(&filter_by_completion(&rows, true)), vec!["a"]);
    assert_eq!(texts(&filter_by_completion(&rows, false)), vec!["c", "b", "a again"]);
    assert!(filter_by_completion(&Vec::new(), true).is_empty());
}

#[test]
fn smallest_free_id_is_the_first_gap_from_1() {
    assert_eq!(ID_LIMIT, 1000);
    assert_eq!(smallest_free_id(&Vec::new()), 1);
    assert_eq!(smallest_free_id(&sample()), 4);
    assert_eq!(smallest_free_id(&vec![task(1, 0, "a", false), task(3, 0, "c", false)]), 2);
    assert_eq!(smallest_free_id(&vec![task(2, 0, "b", false), task(3, 0, "c", false)]), 1);
    assert_eq!(smallest_free_id(&vec![task(5000, 0, "far", false)]), 1);
}

#[test]
fn smallest_free_id_is_1_when_no_id_below_the_limit_is_free() {
    let mut rows: Vec<DBRow> = Vec::new();
    for id in (1..1000u32).rev() {
        rows.push(task(id, 0, "t", false));
    }
    assert_eq!(smallest_free_id(&rows), 1);
    rows.retain(|r| r.id != 998);
    assert_eq!(smallest_free_id(&rows), 998);
}

#[test]
fn sorted_copy_orders_by_id_and_is_stable() {
    let rows = sample();
    let sorted = sorted_copy(&rows);
    assert_eq!(texts(&sorted), vec!["a", "a again", "b", "c"]);
    assert_eq!(texts(&rows), vec!["c", "a", "b", "a again"]);
    assert!(sorted_copy(&Vec::new()).is_empty());
}

#[test]
fn sorted_copy_agrees_with_the_stable_sort_of_the_standard_library() {
    let mut rows: Vec<DBRow> = Vec::new();
    let mut seed: u32 = 12345;
    for n in 0..200 {
        seed = seed.wrapping_mul(1103515245).wrapping_add(12345);
        rows.push(task((seed >> 16) % 17, n, &format!("t{}", n), n % 3 == 0));
    }
    let sorted = sorted_copy(&rows);
    let mut expected: Vec<(u32, i64)> = rows.iter().map(|r| (r.id, r.updatedate)).collect();
    expected.sort_by_key(|p| p.0);
    let got: Vec<(u32, i64)> = sorted.iter().map(|r| (r.id, r.updatedate)).collect();
    assert_eq!(got, expected);
}
