//! The table as a sequence of records: what the store's operations compute.
//!
//! Everything the store does is stated over `Seq<Record>`, the records in
//! the order in which the table holds them. The executable functions of this
//! module work on `Vec<DBRow>` and are proved against those statements.

use crate::models::DBRow;
use crate::models::Record;
use vstd::prelude::*;

verus! {

/// Ids are handed out from 1 up to, but not including, this bound.
pub const ID_LIMIT: u32 = 1000;

/// The records that a vector of rows stands for, in the same order.
pub open spec fn records_of(rows: Seq<DBRow>) -> Seq<Record> {
    rows.map_values(|r: DBRow| r@)
}

/// The records of a table, none while there is no table yet.
pub open spec fn stored(table: Option<Seq<Record>>) -> Seq<Record> {
    match table {
        Some(rows) => rows,
        None => Seq::empty(),
    }
}

/// The record as it is after its completion flag was set at time `now`.
pub open spec fn marked(r: Record, completed: bool, now: i64) -> Record {
    Record { id: r.id, updatedate: now, task: r.task, completed }
}

/// Some record of `rows` has this id.
pub open spec fn has_id(rows: Seq<Record>, id: u32) -> bool {
    exists|i: int| 0 <= i < rows.len() && (#[trigger] rows[i]).id == id
}

/// The records of `rows` that have this id, in their stored order.
pub open spec fn with_id(rows: Seq<Record>, id: u32) -> Seq<Record> {
    rows.filter(|r: Record| r.id == id)
}

/// The records of `rows` that do not have this id, in their stored order.
pub open spec fn without_id(rows: Seq<Record>, id: u32) -> Seq<Record> {
    rows.filter(|r: Record| r.id != id)
}

/// The first record of `rows` that has this id, if there is one.
pub open spec fn first_with_id(rows: Seq<Record>, id: u32) -> Option<Record> {
    let found = with_id(rows, id);
    if found.len() > 0 {
        Some(found[0])
    } else {
        None
    }
}

/// The records of `rows` whose completion flag is `completed`, in their
/// stored order.
pub open spec fn with_completion(rows: Seq<Record>, completed: bool) -> Seq<Record> {
    rows.filter(|r: Record| r.completed == completed)
}

/// No two records of `rows` share an id.
pub open spec fn ids_distinct(rows: Seq<Record>) -> bool {
    forall|i: int, j: int|
        0 <= i < j < rows.len() ==> (#[trigger] rows[i]).id != (#[trigger] rows[j]).id
}

/// The ids never decrease along `rows`.
pub open spec fn is_sorted_by_id(rows: Seq<Record>) -> bool {
    forall|i: int, j: int|
        0 <= i <= j < rows.len() ==> (#[trigger] rows[i]).id <= (#[trigger] rows[j]).id
}

/// `a` and `b` hold, for every id, the same records in the same order.
pub open spec fn same_tasks(a: Seq<Record>, b: Seq<Record>) -> bool {
    forall|id: u32| #[trigger] with_id(a, id) == with_id(b, id)
}

/// `out` is `rows` put in order of id, records of equal id keeping the order
/// in which `rows` holds them.
pub open spec fn is_sorted_copy(out: Seq<Record>, rows: Seq<Record>) -> bool {
    is_sorted_by_id(out) && same_tasks(out, rows)
}

/// `id` is the smallest id from 1 up to `ID_LIMIT` that no record of `rows`
/// has.
pub open spec fn is_least_free(rows: Seq<Record>, id: u32) -> bool {
    &&& 1 <= id < ID_LIMIT
    &&& !has_id(rows, id)
    &&& forall|k: u32| 1 <= k < id ==> has_id(rows, k)
}

/// The id that the next new record gets: the smallest free id below
/// `ID_LIMIT`, and 1 when every id below the limit is taken. The search is
/// bounded on purpose and the bound is a known limit of the store: past it
/// new records share the id 1.
pub open spec fn next_free_id(rows: Seq<Record>) -> u32 {
    if exists|id: u32| is_least_free(rows, id) {
        choose|id: u32| is_least_free(rows, id)
    } else {
        1
    }
}

/// A table in which no record has the id: nothing is found, nothing removed.
pub proof fn lemma_id_absent(rows: Seq<Record>, id: u32)
    requires
        !has_id(rows, id),
    ensures
        with_id(rows, id) == Seq::<Record>::empty(),
        without_id(rows, id) == rows,
        first_with_id(rows, id) is None,
    decreases rows.len(),
{
    reveal(Seq::filter);
    if rows.len() > 0 {
        let front = rows.drop_last();
        assert forall|i: int| 0 <= i < front.len() implies (#[trigger] front[i]).id != id by {
            assert(rows[i].id != id);
        }
        lemma_id_absent(front, id);
        assert(rows.last() == rows[rows.len() - 1]);
        assert(rows.last().id != id);
        assert(front.push(rows.last()) =~= rows);
    } else {
        assert(with_id(rows, id) =~= Seq::<Record>::empty());
    }
}

/// A record has the id exactly when the records with that id are not none.
pub proof fn lemma_has_id_iff_found(rows: Seq<Record>, id: u32)
    ensures
        has_id(rows, id) <==> with_id(rows, id).len() > 0,
        has_id(rows, id) <==> first_with_id(rows, id) is Some,
        first_with_id(rows, id) matches Some(r) ==> r.id == id,
{
    let pred = |r: Record| r.id == id;
    if has_id(rows, id) {
        let i = choose|i: int| 0 <= i < rows.len() && (#[trigger] rows[i]).id == id;
        rows.lemma_filter_contains(pred, i);
        let j = choose|j: int|
            0 <= j < rows.filter(pred).len() && rows.filter(pred)[j] == rows[i];
        assert(with_id(rows, id).len() > j);
    } else {
        lemma_id_absent(rows, id);
    }
    if with_id(rows, id).len() > 0 {
        rows.lemma_filter_pred(pred, 0);
    }
}

/// The first record with the id is the one before which no record has it.
pub proof fn lemma_first_with_id_at(rows: Seq<Record>, id: u32, at: int)
    requires
        0 <= at < rows.len(),
        rows[at].id == id,
        forall|j: int| 0 <= j < at ==> (#[trigger] rows[j]).id != id,
    ensures
        first_with_id(rows, id) == Some(rows[at]),
{
    let pred = |r: Record| r.id == id;
    let front = rows.take(at);
    let back = rows.skip(at + 1);
    assert(rows =~= front + (seq![rows[at]] + back));
    assert(!has_id(front, id));
    lemma_id_absent(front, id);
    Seq::filter_distributes_over_add(front, seq![rows[at]] + back, pred);
    back.lemma_filter_prepend(rows[at], pred);
    assert(with_id(rows, id) =~= seq![rows[at]] + back.filter(pred));
}

/// What adding one record at the end does to the records of each id.
pub proof fn lemma_push_by_id(rows: Seq<Record>, r: Record, id: u32)
    ensures
        with_id(rows.push(r), id) == if r.id == id {
            with_id(rows, id).push(r)
        } else {
            with_id(rows, id)
        },
        without_id(rows.push(r), id) == if r.id == id {
            without_id(rows, id)
        } else {
            without_id(rows, id).push(r)
        },
        has_id(rows.push(r), id) <==> (r.id == id || has_id(rows, id)),
{
    rows.lemma_filter_push(r, |x: Record| x.id == id);
    rows.lemma_filter_push(r, |x: Record| x.id != id);
    let grown = rows.push(r);
    if has_id(grown, id) {
        let i = choose|i: int| 0 <= i < grown.len() && (#[trigger] grown[i]).id == id;
        if i < rows.len() {
            assert(rows[i].id == id);
        }
    }
    if has_id(rows, id) {
        let i = choose|i: int| 0 <= i < rows.len() && (#[trigger] rows[i]).id == id;
        assert(grown[i].id == id);
    }
    if r.id == id {
        assert(grown[rows.len() as int].id == id);
    }
}

/// What putting one record into the table at `at` does to the records of
/// each id, when no record from `at` on has the new record's id.
pub proof fn lemma_insert_by_id(rows: Seq<Record>, at: int, r: Record, id: u32)
    requires
        0 <= at <= rows.len(),
        forall|j: int| at <= j < rows.len() ==> (#[trigger] rows[j]).id != r.id,
    ensures
        with_id(rows.insert(at, r), id) == if r.id == id {
            with_id(rows, id).push(r)
        } else {
            with_id(rows, id)
        },
{
    let pred = |x: Record| x.id == id;
    let front = rows.take(at);
    let back = rows.skip(at);
    assert(rows.insert(at, r) =~= front + (seq![r] + back));
    assert(rows =~= front + back);
    Seq::filter_distributes_over_add(front, seq![r] + back, pred);
    Seq::filter_distributes_over_add(front, back, pred);
    back.lemma_filter_prepend(r, pred);
    if r.id == id {
        assert(!has_id(back, id));
        lemma_id_absent(back, id);
        assert(with_id(rows.insert(at, r), id) =~= with_id(rows, id).push(r));
    } else {
        assert(with_id(rows.insert(at, r), id) =~= with_id(rows, id));
    }
}

/// The smallest free id is the next id, and there is only one.
pub proof fn lemma_least_free_is_next(rows: Seq<Record>, id: u32)
    requires
        is_least_free(rows, id),
    ensures
        next_free_id(rows) == id,
{
    let chosen = choose|k: u32| is_least_free(rows, k);
    if chosen < id {
        assert(has_id(rows, chosen));
    } else if id < chosen {
        assert(has_id(rows, id));
    }
}

/// Choosing by one rule and then by another is choosing by the other and
/// then by the one.
proof fn lemma_filter_commutes(
    rows: Seq<Record>,
    p: spec_fn(Record) -> bool,
    q: spec_fn(Record) -> bool,
)
    ensures
        rows.filter(p).filter(q) == rows.filter(q).filter(p),
    decreases rows.len(),
{
    if rows.len() == 0 {
        reveal(Seq::filter);
        assert(rows.filter(p) =~= rows);
        assert(rows.filter(q) =~= rows);
    } else {
        let front = rows.drop_last();
        let last = rows.last();
        assert(rows =~= front.push(last));
        lemma_filter_commutes(front, p, q);
        front.lemma_filter_push(last, p);
        front.lemma_filter_push(last, q);
        front.filter(p).lemma_filter_push(last, q);
        front.filter(q).lemma_filter_push(last, p);
    }
}

/// Records chosen from records in order of id are in order of id.
proof fn lemma_filter_keeps_order(rows: Seq<Record>, p: spec_fn(Record) -> bool)
    requires
        is_sorted_by_id(rows),
    ensures
        is_sorted_by_id(rows.filter(p)),
    decreases rows.len(),
{
    if rows.len() == 0 {
        reveal(Seq::filter);
        assert(rows.filter(p) =~= rows);
    } else {
        let front = rows.drop_last();
        let last = rows.last();
        assert(rows =~= front.push(last));
        assert(is_sorted_by_id(front)) by {
            assert forall|i: int, j: int| 0 <= i <= j < front.len() implies (#[trigger] front[i]).id
                <= (#[trigger] front[j]).id by {
                assert(rows[i].id <= rows[j].id);
            }
        }
        lemma_filter_keeps_order(front, p);
        front.lemma_filter_push(last, p);
        if p(last) {
            let chosen = front.filter(p);
            assert forall|i: int| 0 <= i < chosen.len() implies (#[trigger] chosen[i]).id
                <= last.id by {
                assert(chosen.contains(chosen[i]));
                front.lemma_filter_contains_rev(p, chosen[i]);
                let k = choose|k: int| 0 <= k < front.len() && front[k] == chosen[i];
                assert(rows[k].id <= rows[rows.len() - 1].id);
            }
        }
    }
}

/// The rows of one completion flag, taken from a table put in order, are
/// those rows of the table put in order.
pub proof fn lemma_completion_of_sorted_copy(out: Seq<Record>, rows: Seq<Record>, completed: bool)
    requires
        is_sorted_copy(out, rows),
    ensures
        is_sorted_copy(with_completion(out, completed), with_completion(rows, completed)),
{
    let by_flag = |r: Record| r.completed == completed;
    lemma_filter_keeps_order(out, by_flag);
    assert forall|id: u32| #[trigger]
        with_id(with_completion(out, completed), id) == with_id(
            with_completion(rows, completed),
            id,
        ) by {
        let by_id = |r: Record| r.id == id;
        lemma_filter_commutes(out, by_flag, by_id);
        lemma_filter_commutes(rows, by_flag, by_id);
        assert(with_id(out, id) == with_id(rows, id));
    }
}

/// A table has one copy in order of id, and no other.
pub proof fn lemma_sorted_copy_unique(a: Seq<Record>, b: Seq<Record>)
    requires
        is_sorted_by_id(a),
        is_sorted_by_id(b),
        same_tasks(a, b),
    ensures
        a == b,
    decreases a.len(),
{
    if a.len() == 0 {
        if b.len() > 0 {
            assert(has_id(b, b[0].id));
            lemma_has_id_iff_found(b, b[0].id);
            assert(with_id(a, b[0].id) == with_id(b, b[0].id));
            assert(!has_id(a, b[0].id));
            lemma_id_absent(a, b[0].id);
        }
        assert(a =~= b);
    } else {
        let x = a.last();
        let front_a = a.drop_last();
        assert(a =~= front_a.push(x));
        assert(has_id(a, x.id)) by {
            assert(a[a.len() - 1].id == x.id);
        }
        lemma_has_id_iff_found(a, x.id);
        assert(with_id(a, x.id) == with_id(b, x.id));
        lemma_has_id_iff_found(b, x.id);
        assert(b.len() > 0);
        let y = b.last();
        let front_b = b.drop_last();
        assert(b =~= front_b.push(y));
        assert(has_id(b, y.id)) by {
            assert(b[b.len() - 1].id == y.id);
        }
        lemma_has_id_iff_found(b, y.id);
        assert(with_id(a, y.id) == with_id(b, y.id));
        lemma_has_id_iff_found(a, y.id);
        // The last record of each has the greatest id of both.
        let i = choose|i: int| 0 <= i < a.len() && (#[trigger] a[i]).id == y.id;
        assert(a[i].id <= a[a.len() - 1].id);
        let j = choose|j: int| 0 <= j < b.len() && (#[trigger] b[j]).id == x.id;
        assert(b[j].id <= b[b.len() - 1].id);
        assert(x.id == y.id);
        lemma_push_by_id(front_a, x, x.id);
        lemma_push_by_id(front_b, y, x.id);
        assert(with_id(front_a, x.id).push(x) == with_id(front_b, x.id).push(y));
        assert(x == y) by {
            assert(with_id(front_a, x.id).push(x).last() == x);
            assert(with_id(front_b, x.id).push(y).last() == y);
        }
        assert(with_id(front_a, x.id) == with_id(front_b, x.id)) by {
            assert(with_id(front_a, x.id).push(x).drop_last() =~= with_id(front_a, x.id));
            assert(with_id(front_b, x.id).push(y).drop_last() =~= with_id(front_b, x.id));
        }
        assert forall|id: u32| #[trigger] with_id(front_a, id) == with_id(front_b, id) by {
            lemma_push_by_id(front_a, x, id);
            lemma_push_by_id(front_b, y, id);
            assert(with_id(a, id) == with_id(b, id));
        }
        assert(is_sorted_by_id(front_a)) by {
            assert forall|i: int, j: int| 0 <= i <= j < front_a.len() implies (
            #[trigger] front_a[i]).id <= (#[trigger] front_a[j]).id by {
                assert(a[i].id <= a[j].id);
            }
        }
        assert(is_sorted_by_id(front_b)) by {
            assert forall|i: int, j: int| 0 <= i <= j < front_b.len() implies (
            #[trigger] front_b[i]).id <= (#[trigger] front_b[j]).id by {
                assert(b[i].id <= b[j].id);
            }
        }
        lemma_sorted_copy_unique(front_a, front_b);
    }
}

/// Below a free id there is a smallest free id.
pub proof fn lemma_free_id_has_least(rows: Seq<Record>, free: u32)
    requires
        1 <= free < ID_LIMIT,
        !has_id(rows, free),
    ensures
        is_least_free(rows, next_free_id(rows)),
        next_free_id(rows) <= free,
    decreases free,
{
    if forall|k: u32| 1 <= k < free ==> has_id(rows, k) {
        lemma_least_free_is_next(rows, free);
    } else {
        let lower = choose|k: u32| 1 <= k < free && !has_id(rows, k);
        lemma_free_id_has_least(rows, lower);
    }
}

/// The next id is below the limit; it is free unless every id below the
/// limit is taken, and then it is 1.
pub proof fn lemma_next_free_id(rows: Seq<Record>)
    ensures
        1 <= next_free_id(rows) < ID_LIMIT,
        (exists|free: u32| 1 <= free < ID_LIMIT && !has_id(rows, free)) ==> is_least_free(
            rows,
            next_free_id(rows),
        ),
        (forall|id: u32| 1 <= id < ID_LIMIT ==> has_id(rows, id)) ==> next_free_id(rows) == 1,
{
    if exists|free: u32| 1 <= free < ID_LIMIT && !has_id(rows, free) {
        let free = choose|free: u32| 1 <= free < ID_LIMIT && !has_id(rows, free);
        lemma_free_id_has_least(rows, free);
    }
}

/// No record that stays has the id that was taken out.
pub proof fn lemma_without_id(rows: Seq<Record>, id: u32)
    ensures
        !has_id(without_id(rows, id), id),
        without_id(without_id(rows, id), id) == without_id(rows, id),
        forall|other: u32|
            other != id ==> (has_id(without_id(rows, id), other) <==> has_id(rows, other)),
{
    let pred = |r: Record| r.id != id;
    let kept = without_id(rows, id);
    assert forall|i: int| 0 <= i < kept.len() implies (#[trigger] kept[i]).id != id by {
        rows.lemma_filter_pred(pred, i);
    }
    lemma_id_absent(kept, id);
    assert forall|other: u32| other != id implies (has_id(kept, other) <==> has_id(
        rows,
        other,
    )) by {
        if has_id(kept, other) {
            let i = choose|i: int| 0 <= i < kept.len() && (#[trigger] kept[i]).id == other;
            assert(kept.contains(kept[i]));
            rows.lemma_filter_contains_rev(pred, kept[i]);
            let k = choose|k: int| 0 <= k < rows.len() && rows[k] == kept[i];
            assert(rows[k].id == other);
        }
        if has_id(rows, other) {
            let k = choose|k: int| 0 <= k < rows.len() && (#[trigger] rows[k]).id == other;
            rows.lemma_filter_contains(pred, k);
            let i = choose|i: int| 0 <= i < kept.len() && kept[i] == rows[k];
            assert(kept[i].id == other);
        }
    }
}

/// Records chosen from records of distinct ids have distinct ids.
pub proof fn lemma_filter_keeps_ids_distinct(rows: Seq<Record>, p: spec_fn(Record) -> bool)
    requires
        ids_distinct(rows),
    ensures
        ids_distinct(rows.filter(p)),
    decreases rows.len(),
{
    if rows.len() == 0 {
        reveal(Seq::filter);
        assert(rows.filter(p) =~= rows);
    } else {
        let front = rows.drop_last();
        let last = rows.last();
        assert(rows =~= front.push(last));
        assert(ids_distinct(front)) by {
            assert forall|i: int, j: int| 0 <= i < j < front.len() implies (#[trigger] front[i]).id
                != (#[trigger] front[j]).id by {
                assert(rows[i].id != rows[j].id);
            }
        }
        lemma_filter_keeps_ids_distinct(front, p);
        front.lemma_filter_push(last, p);
        if p(last) {
            let chosen = front.filter(p);
            assert forall|i: int| 0 <= i < chosen.len() implies (#[trigger] chosen[i]).id
                != last.id by {
                assert(chosen.contains(chosen[i]));
                front.lemma_filter_contains_rev(p, chosen[i]);
                let k = choose|k: int| 0 <= k < front.len() && front[k] == chosen[i];
                assert(rows[k].id != rows[rows.len() - 1].id);
            }
        }
    }
}

/// Choosing by a rule that a record meets leaves it as often as it was
/// there.
proof fn lemma_filter_keeps_count(rows: Seq<Record>, p: spec_fn(Record) -> bool, r: Record)
    requires
        p(r),
    ensures
        rows.filter(p).to_multiset().count(r) == rows.to_multiset().count(r),
    decreases rows.len(),
{
    if rows.len() == 0 {
        reveal(Seq::filter);
        assert(rows.filter(p) =~= rows);
    } else {
        let front = rows.drop_last();
        let last = rows.last();
        assert(rows =~= front.push(last));
        lemma_filter_keeps_count(front, p, r);
        front.lemma_filter_push(last, p);
        vstd::seq_lib::to_multiset_build(front, last);
        if p(last) {
            vstd::seq_lib::to_multiset_build(front.filter(p), last);
        }
    }
}

/// Tables that hold the same records for every id hold the same records
/// as often, and so are of one length.
pub proof fn lemma_same_tasks_same_records(a: Seq<Record>, b: Seq<Record>)
    requires
        same_tasks(a, b),
    ensures
        a.to_multiset() == b.to_multiset(),
        a.len() == b.len(),
{
    assert forall|r: Record| a.to_multiset().count(r) == b.to_multiset().count(r) by {
        let by_id = |x: Record| x.id == r.id;
        lemma_filter_keeps_count(a, by_id, r);
        lemma_filter_keeps_count(b, by_id, r);
        assert(with_id(a, r.id) == with_id(b, r.id));
    }
    assert(a.to_multiset() =~= b.to_multiset());
    vstd::seq_lib::to_multiset_len(a);
    vstd::seq_lib::to_multiset_len(b);
}

/// Whether some row has the id.
pub fn contains_id(rows: &Vec<DBRow>, id: u32) -> (found: bool)
    ensures
        found == has_id(records_of(rows@), id),
{
    let mut i: usize = 0;
    while i < rows.len()
        invariant
            i <= rows.len(),
            forall|j: int| 0 <= j < i ==> (#[trigger] records_of(rows@)[j]).id != id,
        decreases rows.len() - i,
    {
        if rows[i].id == id {
            assert(records_of(rows@)[i as int].id == id);
            return true;
        }
        i += 1;
    }
    false
}

/// A copy of the first row that has the id.
pub fn find_first(rows: &Vec<DBRow>, id: u32) -> (found: Option<DBRow>)
    ensures
        match found {
            Some(row) => first_with_id(records_of(rows@), id) == Some(row@),
            None => first_with_id(records_of(rows@), id) is None,
        },
{
    let mut i: usize = 0;
    while i < rows.len()
        invariant
            i <= rows.len(),
            forall|j: int| 0 <= j < i ==> (#[trigger] records_of(rows@)[j]).id != id,
        decreases rows.len() - i,
    {
        if rows[i].id == id {
            proof {
                lemma_first_with_id_at(records_of(rows@), id, i as int);
            }
            return Some(rows[i].clone());
        }
        i += 1;
    }
    proof {
        lemma_id_absent(records_of(rows@), id);
    }
    None
}

/// Copies of the rows that do not have the id, in their stored order, and
/// the number of rows that were left out.
pub fn remove_all(rows: &Vec<DBRow>, id: u32) -> (out: (Vec<DBRow>, usize))
    ensures
        records_of(out.0@) == without_id(records_of(rows@), id),
        out.1 == with_id(records_of(rows@), id).len(),
{
    let mut kept: Vec<DBRow> = Vec::new();
    let mut removed: usize = 0;
    let mut i: usize = 0;
    proof {
        assert(records_of(rows@).take(0) =~= Seq::<Record>::empty());
        lemma_id_absent(Seq::<Record>::empty(), id);
        assert(records_of(kept@) =~= Seq::<Record>::empty());
    }
    while i < rows.len()
        invariant
            i <= rows.len(),
            records_of(kept@) == without_id(records_of(rows@).take(i as int), id),
            removed == with_id(records_of(rows@).take(i as int), id).len(),
            removed <= i,
        decreases rows.len() - i,
    {
        let ghost seen = records_of(rows@).take(i as int);
        proof {
            lemma_push_by_id(seen, rows@[i as int]@, id);
            assert(records_of(rows@).take(i + 1) =~= seen.push(rows@[i as int]@));
        }
        if rows[i].id == id {
            removed += 1;
        } else {
            let ghost before = records_of(kept@);
            kept.push(rows[i].clone());
            assert(records_of(kept@) =~= before.push(rows@[i as int]@));
        }
        i += 1;
    }
    proof {
        assert(records_of(rows@).take(rows.len() as int) =~= records_of(rows@));
    }
    (kept, removed)
}

/// Copies of the rows whose completion flag is `completed`, in their stored
/// order.
pub fn filter_by_completion(rows: &Vec<DBRow>, completed: bool) -> (out: Vec<DBRow>)
    ensures
        records_of(out@) == with_completion(records_of(rows@), completed),
{
    let mut out: Vec<DBRow> = Vec::new();
    let mut i: usize = 0;
    proof {
        reveal(Seq::filter);
        assert(records_of(rows@).take(0) =~= Seq::<Record>::empty());
        assert(records_of(out@) =~= Seq::<Record>::empty());
    }
    while i < rows.len()
        invariant
            i <= rows.len(),
            records_of(out@) == with_completion(records_of(rows@).take(i as int), completed),
        decreases rows.len() - i,
    {
        let ghost seen = records_of(rows@).take(i as int);
        proof {
            seen.lemma_filter_push(rows@[i as int]@, |r: Record| r.completed == completed);
            assert(records_of(rows@).take(i + 1) =~= seen.push(rows@[i as int]@));
        }
        if rows[i].completed == completed {
            let ghost before = records_of(out@);
            out.push(rows[i].clone());
            assert(records_of(out@) =~= before.push(rows@[i as int]@));
        }
        i += 1;
    }
    proof {
        assert(records_of(rows@).take(rows.len() as int) =~= records_of(rows@));
    }
    out
}

/// The id for the next new row: the smallest id from 1 that no row has, and
/// 1 when all ids below `ID_LIMIT` are taken.
pub fn smallest_free_id(rows: &Vec<DBRow>) -> (id: u32)
    ensures
        id == next_free_id(records_of(rows@)),
{
    let mut candidate: u32 = 1;
    while candidate < ID_LIMIT
        invariant
            1 <= candidate <= ID_LIMIT,
            forall|k: u32| 1 <= k < candidate ==> has_id(records_of(rows@), k),
        decreases ID_LIMIT - candidate,
    {
        if !contains_id(rows, candidate) {
            proof {
                lemma_least_free_is_next(records_of(rows@), candidate);
            }
            return candidate;
        }
        candidate += 1;
    }
    1
}

/// Where a row with this id goes in rows that are in order of id: behind
/// every row whose id is not greater.
fn insertion_point(sorted: &Vec<DBRow>, id: u32) -> (at: usize)
    requires
        is_sorted_by_id(records_of(sorted@)),
    ensures
        at <= sorted.len(),
        forall|j: int| 0 <= j < at ==> (#[trigger] records_of(sorted@)[j]).id <= id,
        forall|j: int| at <= j < sorted.len() ==> (#[trigger] records_of(sorted@)[j]).id > id,
{
    let mut at: usize = 0;
    while at < sorted.len() && sorted[at].id <= id
        invariant
            at <= sorted.len(),
            forall|j: int| 0 <= j < at ==> (#[trigger] records_of(sorted@)[j]).id <= id,
        decreases sorted.len() - at,
    {
        at += 1;
    }
    proof {
        if at < sorted.len() {
            assert(records_of(sorted@)[at as int].id > id);
        }
    }
    at
}

/// Copies of the rows in order of id. Rows of equal id keep their stored
/// order.
pub fn sorted_copy(rows: &Vec<DBRow>) -> (out: Vec<DBRow>)
    ensures
        is_sorted_copy(records_of(out@), records_of(rows@)),
        out.len() == rows.len(),
{
    let mut out: Vec<DBRow> = Vec::new();
    let mut i: usize = 0;
    proof {
        assert(records_of(out@) =~= records_of(rows@).take(0));
    }
    while i < rows.len()
        invariant
            i <= rows.len(),
            out.len() == i,
            is_sorted_copy(records_of(out@), records_of(rows@).take(i as int)),
        decreases rows.len() - i,
    {
        let at: usize = insertion_point(&out, rows[i].id);
        let ghost before = records_of(out@);
        let ghost seen = records_of(rows@).take(i as int);
        let ghost row = rows@[i as int]@;
        out.insert(at, rows[i].clone());
        proof {
            assert(records_of(out@) =~= before.insert(at as int, row));
            assert(records_of(rows@).take(i + 1) =~= seen.push(row));
            assert forall|id: u32| #[trigger]
                with_id(records_of(out@), id) == with_id(seen.push(row), id) by {
                lemma_insert_by_id(before, at as int, row, id);
                lemma_push_by_id(seen, row, id);
                assert(with_id(before, id) == with_id(seen, id));
            }
        }
        i += 1;
    }
    proof {
        assert(records_of(rows@).take(rows.len() as int) =~= records_of(rows@));
    }
    out
}

} // verus!
