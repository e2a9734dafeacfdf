//! What holds of the store, whatever it holds.
//!
//! The laws of the table are stated over the table as a sequence of records
//! and over the same functions as the contracts of the store's operations:
//! a table after `add` is `rows.push(r)`, after `delete` it is
//! `without_id(rows, id)`, `read_one` returns `first_with_id(rows, id)`,
//! `get_next_id` returns `next_free_id(rows)`, and `read_all` returns a
//! sorted copy. The laws of the file are stated over the stages of replacing
//! it and over what each step is taken to do to the files.

use crate::codec::fields_of_record;
use crate::codec::lemma_flag_fields_differ;
use crate::codec::lines_of;
use crate::codec::record_of_fields;
use crate::codec::text_of_table;
use crate::csv_text::csv_line;
use crate::decimal::lemma_decimal_reads_back;
use crate::decimal::lemma_signed_decimal_reads_back;
use crate::models::Record;
use crate::storage::files_at;
use crate::storage::may_leave;
use crate::storage::stage_after;
use crate::storage::step_at;
use crate::storage::FileStep;
use crate::storage::Files;
use crate::storage::Stage;
use crate::table::first_with_id;
use crate::table::has_id;
use crate::table::ids_distinct;
use crate::table::is_least_free;
use crate::table::is_sorted_copy;
use crate::table::lemma_filter_keeps_ids_distinct;
use crate::table::lemma_first_with_id_at;
use crate::table::lemma_free_id_has_least;
use crate::table::lemma_has_id_iff_found;
use crate::table::lemma_id_absent;
use crate::table::lemma_least_free_is_next;
use crate::table::lemma_next_free_id;
use crate::table::lemma_push_by_id;
use crate::table::lemma_same_tasks_same_records;
use crate::table::lemma_sorted_copy_unique;
use crate::table::lemma_without_id;
use crate::table::marked;
use crate::table::next_free_id;
use crate::table::with_id;
use crate::table::without_id;
use crate::table::ID_LIMIT;
use crate::tasks::new_record;
use vstd::prelude::*;
use vstd::utf8::decode_utf8;
use vstd::utf8::valid_utf8;

verus! {

/// The table after the tasks `news`, each a text and the time at which it
/// is noted, were noted one after the other in a table of `rows`.
pub open spec fn add_all(rows: Seq<Record>, news: Seq<(Seq<char>, i64)>) -> Seq<Record>
    decreases news.len(),
{
    if news.len() == 0 {
        rows
    } else {
        let before = add_all(rows, news.drop_last());
        before.push(new_record(before, news.last().0, news.last().1))
    }
}

/// Noting tasks puts one record behind the table for each, and leaves what
/// was noted before as it is.
pub proof fn lemma_add_all_grows(rows: Seq<Record>, news: Seq<(Seq<char>, i64)>, k: int)
    requires
        0 <= k <= news.len(),
    ensures
        add_all(rows, news).len() == rows.len() + news.len(),
        add_all(rows, news).take(rows.len() + k) == add_all(rows, news.take(k)),
        k < news.len() ==> add_all(rows, news)[rows.len() + k] == new_record(
            add_all(rows, news.take(k)),
            news[k].0,
            news[k].1,
        ),
    decreases news.len(),
{
    if news.len() == 0 {
        assert(news.take(k) =~= news);
        assert(add_all(rows, news).take(rows.len() + k) =~= rows);
    } else {
        let front = news.drop_last();
        let before = add_all(rows, front);
        lemma_add_all_grows(rows, front, 0);
        if k == news.len() {
            assert(news.take(k) =~= news);
            assert(add_all(rows, news).take(rows.len() + k) =~= add_all(rows, news));
        } else {
            lemma_add_all_grows(rows, front, k);
            assert(front.take(k) =~= news.take(k));
            assert(add_all(rows, news).take(rows.len() + k) =~= before.take(rows.len() + k));
            if k == front.len() {
                assert(front.take(k) =~= front);
            }
        }
    }
}

/// An id that a table has, the table still has after more tasks were noted.
pub proof fn lemma_add_all_keeps_ids(
    rows: Seq<Record>,
    news: Seq<(Seq<char>, i64)>,
    k: int,
    id: u32,
)
    requires
        0 <= k <= news.len(),
        has_id(add_all(rows, news.take(k)), id),
    ensures
        has_id(add_all(rows, news), id),
{
    lemma_add_all_grows(rows, news, k);
    let early = add_all(rows, news.take(k));
    let late = add_all(rows, news);
    let i = choose|i: int| 0 <= i < early.len() && (#[trigger] early[i]).id == id;
    assert(late.take(rows.len() + k)[i] == late[i]);
}

/// Tasks noted one after the other get their ids in rising order: of two of
/// them the earlier has the smaller id, if an id was still free when the
/// later one was noted.
pub proof fn law_ids_rise_in_order_of_issue(
    rows: Seq<Record>,
    news: Seq<(Seq<char>, i64)>,
    i: int,
    j: int,
)
    requires
        0 <= i < j < news.len(),
        exists|free: u32| 1 <= free < ID_LIMIT && !has_id(add_all(rows, news.take(j)), free),
    ensures
        add_all(rows, news).len() == rows.len() + news.len(),
        add_all(rows, news)[rows.len() + i].id < add_all(rows, news)[rows.len() + j].id,
{
    let at_i = add_all(rows, news.take(i));
    let at_j = add_all(rows, news.take(j));
    lemma_add_all_grows(rows, news, i);
    lemma_add_all_grows(rows, news, j);
    let id_i = next_free_id(at_i);
    let id_j = next_free_id(at_j);
    lemma_next_free_id(at_j);
    // The earlier id is taken when the later task is noted.
    let upto_j = news.take(j);
    assert(upto_j.take(i) =~= news.take(i));
    assert(upto_j.take(i + 1) =~= news.take(i + 1));
    lemma_add_all_grows(rows, upto_j, i);
    assert(at_j[rows.len() + i].id == id_i);
    assert(has_id(at_j, id_i));
    // The later id was free when the earlier task was noted.
    if has_id(at_i, id_j) {
        lemma_add_all_keeps_ids(rows, upto_j, i, id_j);
    }
    lemma_free_id_has_least(at_i, id_j);
}

/// In a table that starts empty the tasks are numbered from 1 in the order
/// in which they are noted.
pub proof fn law_ids_count_from_one(news: Seq<(Seq<char>, i64)>, k: int)
    requires
        0 <= k < news.len(),
        k + 1 < ID_LIMIT,
    ensures
        add_all(Seq::empty(), news).len() == news.len(),
        add_all(Seq::empty(), news)[k].id == k + 1,
    decreases k,
{
    let none = Seq::<Record>::empty();
    let before = add_all(none, news.take(k));
    lemma_add_all_grows(none, news, k);
    lemma_add_all_grows(none, news.take(k), 0);
    assert(before.len() == k);
    assert forall|m: int| 0 <= m < k implies (#[trigger] before[m]).id == m + 1 by {
        law_ids_count_from_one(news.take(k), m);
    }
    let next = (k + 1) as u32;
    assert forall|id: u32| 1 <= id < next implies has_id(before, id) by {
        assert(before[id - 1].id == id);
    }
    lemma_least_free_is_next(before, next);
}

/// A task that was removed is not found any more.
pub proof fn law_removed_task_is_gone(rows: Seq<Record>, id: u32)
    ensures
        first_with_id(without_id(rows, id), id) is None,
{
    lemma_without_id(rows, id);
    lemma_id_absent(without_id(rows, id), id);
}

/// The id of a task that was noted and removed again is the next id once
/// more: ids are used again.
pub proof fn law_removed_id_is_next_again(rows: Seq<Record>, task: Seq<char>, now: i64)
    ensures
        ({
            let noted = new_record(rows, task, now);
            next_free_id(without_id(rows.push(noted), noted.id)) == noted.id
        }),
{
    let noted = new_record(rows, task, now);
    let after = without_id(rows.push(noted), noted.id);
    lemma_push_by_id(rows, noted, noted.id);
    if exists|id: u32| is_least_free(rows, id) {
        lemma_id_absent(rows, noted.id);
    } else {
        lemma_without_id(rows, noted.id);
        lemma_least_free_is_next(after, 1);
    }
}

/// Removing a task frees its id: the next id is then that id or a smaller
/// one.
pub proof fn law_removal_frees_the_id(rows: Seq<Record>, id: u32)
    requires
        1 <= id < ID_LIMIT,
    ensures
        next_free_id(without_id(rows, id)) <= id,
{
    lemma_without_id(rows, id);
    lemma_free_id_has_least(without_id(rows, id), id);
}

/// Removing by an id that no task has leaves the table, and so its text, as
/// it is.
pub proof fn law_removing_nothing_changes_nothing(rows: Seq<Record>, id: u32)
    requires
        !has_id(rows, id),
    ensures
        with_id(rows, id).len() == 0,
        without_id(rows, id) == rows,
        text_of_table(without_id(rows, id)) == text_of_table(rows),
{
    lemma_id_absent(rows, id);
}

/// Completing a task and then taking the completion back leaves it not
/// completed, with the text it had and with the time of the second change:
/// the time does not come back. The other tasks are untouched.
pub proof fn law_completion_set_and_taken_back(
    rows: Seq<Record>,
    id: u32,
    first: i64,
    second: i64,
)
    requires
        has_id(rows, id),
    ensures
        ({
            let task = first_with_id(rows, id)->0;
            let done = without_id(rows, id).push(marked(task, true, first));
            let undone = without_id(done, id).push(
                marked(first_with_id(done, id)->0, false, second),
            );
            &&& first_with_id(done, id) == Some(marked(task, true, first))
            &&& first_with_id(undone, id) == Some(marked(task, false, second))
            &&& without_id(undone, id) == without_id(rows, id)
        }),
{
    lemma_has_id_iff_found(rows, id);
    let task = first_with_id(rows, id)->0;
    let rest = without_id(rows, id);
    lemma_without_id(rows, id);
    let set = marked(task, true, first);
    let done = rest.push(set);
    lemma_first_with_id_at(done, id, rest.len() as int);
    lemma_push_by_id(rest, set, id);
    let reset = marked(set, false, second);
    let undone = rest.push(reset);
    lemma_first_with_id_at(undone, id, rest.len() as int);
    lemma_push_by_id(rest, reset, id);
}

/// The only copy in order of a table without tasks is without tasks.
pub proof fn law_empty_table_lists_nothing(out: Seq<Record>)
    requires
        is_sorted_copy(out, Seq::empty()),
    ensures
        out == Seq::<Record>::empty(),
{
    lemma_sorted_copy_unique(out, Seq::empty());
}

/// Two copies in order of one table are the same: the order of a listing is
/// fixed by the table.
pub proof fn law_listing_is_determined(a: Seq<Record>, b: Seq<Record>, rows: Seq<Record>)
    requires
        is_sorted_copy(a, rows),
        is_sorted_copy(b, rows),
    ensures
        a == b,
{
    assert forall|id: u32| #[trigger] with_id(a, id) == with_id(b, id) by {
        assert(with_id(a, id) == with_id(rows, id));
        assert(with_id(b, id) == with_id(rows, id));
    }
    lemma_sorted_copy_unique(a, b);
}

/// While an id is free, a new task keeps the ids of the table distinct.
pub proof fn law_new_task_keeps_ids_distinct(rows: Seq<Record>, task: Seq<char>, now: i64)
    requires
        ids_distinct(rows),
        exists|free: u32| 1 <= free < ID_LIMIT && !has_id(rows, free),
    ensures
        ids_distinct(rows.push(new_record(rows, task, now))),
{
    lemma_next_free_id(rows);
    let noted = new_record(rows, task, now);
    let grown = rows.push(noted);
    assert forall|i: int, j: int| 0 <= i < j < grown.len() implies (#[trigger] grown[i]).id != (
    #[trigger] grown[j]).id by {
        if j < rows.len() {
            assert(rows[i].id != rows[j].id);
        } else {
            assert(rows[i].id != noted.id);
        }
    }
}

/// Removing a task keeps the ids of the table distinct.
pub proof fn law_removal_keeps_ids_distinct(rows: Seq<Record>, id: u32)
    requires
        ids_distinct(rows),
    ensures
        ids_distinct(without_id(rows, id)),
{
    lemma_filter_keeps_ids_distinct(rows, |r: Record| r.id != id);
}

/// Setting the completion flag of a task keeps the ids of the table
/// distinct.
pub proof fn law_completion_keeps_ids_distinct(
    rows: Seq<Record>,
    id: u32,
    completed: bool,
    now: i64,
)
    requires
        ids_distinct(rows),
        has_id(rows, id),
    ensures
        ids_distinct(
            without_id(rows, id).push(marked(first_with_id(rows, id)->0, completed, now)),
        ),
{
    lemma_has_id_iff_found(rows, id);
    law_removal_keeps_ids_distinct(rows, id);
    lemma_without_id(rows, id);
    let rest = without_id(rows, id);
    let set = marked(first_with_id(rows, id)->0, completed, now);
    let grown = rest.push(set);
    assert forall|i: int, j: int| 0 <= i < j < grown.len() implies (#[trigger] grown[i]).id != (
    #[trigger] grown[j]).id by {
        if j < rest.len() {
            assert(rest[i].id != rest[j].id);
        } else {
            assert(rest[i].id != id);
        }
    }
}

/// A task that is added under an id that no task has is the one found
/// under that id; under an id that a task has, the task found stays the
/// same.
pub proof fn law_added_task_is_found(rows: Seq<Record>, r: Record)
    ensures
        first_with_id(rows.push(r), r.id) == if has_id(rows, r.id) {
            first_with_id(rows, r.id)
        } else {
            Some(r)
        },
{
    lemma_push_by_id(rows, r, r.id);
    lemma_has_id_iff_found(rows, r.id);
    if !has_id(rows, r.id) {
        lemma_id_absent(rows, r.id);
    }
}

/// A listing holds the records of the table, each as often as the table
/// holds it, and nothing else.
pub proof fn law_listing_holds_the_table(out: Seq<Record>, rows: Seq<Record>)
    requires
        is_sorted_copy(out, rows),
    ensures
        out.to_multiset() == rows.to_multiset(),
        out.len() == rows.len(),
{
    lemma_same_tasks_same_records(out, rows);
}

/// A record reads back from the fields of its own line.
pub proof fn law_record_reads_back_from_its_fields(r: Record)
    ensures
        record_of_fields(fields_of_record(r)) == Some(r),
{
    broadcast use {vstd::utf8::encode_utf8_valid_utf8, vstd::utf8::encode_utf8_decode_utf8};

    lemma_decimal_reads_back(r.id as nat);
    lemma_signed_decimal_reads_back(r.updatedate as int);
    lemma_flag_fields_differ();
    let fields = fields_of_record(r);
    assert(valid_utf8(fields[2]));
    assert(decode_utf8(fields[2]) == r.task);
    assert(record_of_fields(fields)->0 =~= r);
}

/// A row that is added puts one line behind the text of the table, and
/// leaves the text before it as it was.
pub proof fn law_add_appends_one_line(rows: Seq<Record>, r: Record)
    ensures
        text_of_table(rows.push(r)) == text_of_table(rows) + csv_line(fields_of_record(r)),
{
    assert(rows.push(r).drop_last() =~= rows);
    assert(lines_of(rows.push(r)) == lines_of(rows) + csv_line(fields_of_record(r)));
    assert(text_of_table(rows.push(r)) =~= text_of_table(rows) + csv_line(fields_of_record(r)));
}

/// The stage that replacing the file has reached after steps that went as
/// `outcomes` say, one after the other from the first stage.
pub open spec fn stage_reached(outcomes: Seq<bool>) -> Stage
    decreases outcomes.len(),
{
    if outcomes.len() == 0 {
        Stage::Next(FileStep::MakeDirs)
    } else {
        stage_after(stage_reached(outcomes.drop_last()), outcomes.last())
    }
}

/// `course` is a way the files may go while the text is replaced: it starts
/// with the files as they are found, and each further entry is what the
/// step of that moment has left of the entry before it.
pub open spec fn is_course(text: Seq<u8>, outcomes: Seq<bool>, course: Seq<Files>) -> bool {
    &&& course.len() == outcomes.len() + 1
    &&& forall|k: int|
        0 <= k < outcomes.len() ==> match step_at(stage_reached(outcomes.take(k))) {
            Some(step) => may_leave(step, text, outcomes[k], #[trigger] course[k], course[k + 1]),
            None => course[k + 1] == course[k],
        }
}

/// A step leaves the files as its stage asks for them.
pub proof fn law_each_step_keeps_the_file_whole(
    stage: Stage,
    ok: bool,
    before: Files,
    after: Files,
    old: Option<Seq<u8>>,
    text: Seq<u8>,
)
    requires
        files_at(stage, before, old, text),
        step_at(stage) matches Some(step) && may_leave(step, text, ok, before, after),
    ensures
        files_at(stage_after(stage, ok), after, old, text),
{
}

/// While a text is replaced the file of the store is whole at every moment:
/// it holds the new text once every step was taken, and until then, and for
/// good when a step fails, the text that it held before.
pub proof fn law_file_is_whole_throughout(
    text: Seq<u8>,
    outcomes: Seq<bool>,
    course: Seq<Files>,
    k: int,
)
    requires
        is_course(text, outcomes, course),
        0 <= k <= outcomes.len(),
    ensures
        files_at(stage_reached(outcomes.take(k)), course[k], course[0].file, text),
        course[k].file == if stage_reached(outcomes.take(k)) == Stage::Done {
            Some(text)
        } else {
            course[0].file
        },
    decreases k,
{
    if k == 0 {
        assert(outcomes.take(0) =~= Seq::<bool>::empty());
    } else {
        law_file_is_whole_throughout(text, outcomes, course, k - 1);
        let earlier = outcomes.take(k - 1);
        assert(outcomes.take(k).drop_last() =~= earlier);
        assert(outcomes.take(k).last() == outcomes[k - 1]);
        let stage = stage_reached(earlier);
        assert(stage_reached(outcomes.take(k)) == stage_after(stage, outcomes[k - 1]));
        let before = course[k - 1];
        if step_at(stage) is Some {
            law_each_step_keeps_the_file_whole(
                stage,
                outcomes[k - 1],
                before,
                course[k],
                course[0].file,
                text,
            );
        }
    }
}

/// When replacing fails behind the writing of the temporary file, the file
/// of the store is as it was.
pub proof fn law_failed_replace_leaves_the_file(
    before: Files,
    after: Files,
    old: Option<Seq<u8>>,
    text: Seq<u8>,
)
    requires
        files_at(Stage::Next(FileStep::Replace), before, old, text),
        may_leave(FileStep::Replace, text, false, before, after),
    ensures
        after.file == old,
        stage_after(Stage::Next(FileStep::Replace), false) == Stage::Failed(FileStep::Replace),
{
}

} // verus!
