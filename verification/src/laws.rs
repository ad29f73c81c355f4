//! Properties of the task store that span several operations.

use vstd::prelude::*;

use crate::handlers::{empty_title_message, long_title_message, title_error, MAX_TITLE_LEN};
use crate::htmx::joined;
use crate::state::{
    lemma_filter_all, lemma_filter_len_update, lemma_index_of, open_pred, search_pred, StoreView,
    TaskView,
};
use crate::text::{
    all_white_space, ascii_lower, ascii_upper, contains_seq, is_ascii_text, is_white_space,
    lemma_ascii_case_forms, lemma_contains_trans, lemma_trim_ascii, lemma_trim_ascii_lower,
    lemma_trim_padded, lowercased, trim,
};

verus! {

broadcast use vstd::seq_lib::group_seq_properties;

/// A created task can be read back under the returned id, with its title
/// trimmed and not done; the store stays well formed.
pub proof fn law_get_after_create(v: StoreView, title: Seq<char>)
    requires
        v.wf(),
        v.next_id < u64::MAX,
    ensures
        v.after_create(title).wf(),
        v.after_create(title).lookup((v.next_id + 1) as u64) == Some(
            TaskView { id: (v.next_id + 1) as u64, title: trim(title), done: false },
        ),
{
    let w = v.after_create(title);
    assert(w.wf());
    lemma_index_of(w, v.tasks.len() as int);
}

/// Creating a task hands out an id that no task had, and leaves every other
/// task as it was.
pub proof fn law_create_fresh_id(v: StoreView, title: Seq<char>, other: u64)
    requires
        v.wf(),
        v.next_id < u64::MAX,
        other != v.next_id + 1,
    ensures
        !v.has_id((v.next_id + 1) as u64),
        v.after_create(title).lookup(other) == v.lookup(other),
{
    let w = v.after_create(title);
    assert(w.wf());
    if v.has_id(other) {
        let i = v.index_of(other);
        lemma_index_of(v, i);
        assert(w.tasks[i] == v.tasks[i]);
        lemma_index_of(w, i);
    } else {
        if w.has_id(other) {
            let i = w.index_of(other);
            if i < v.tasks.len() {
                assert(v.tasks[i].id == other);
            }
        }
    }
}

/// Creating a task adds one to the number of tasks not yet done.
pub proof fn law_create_remaining(v: StoreView, title: Seq<char>)
    requires
        v.wf(),
        v.next_id < u64::MAX,
    ensures
        v.after_create(title).remaining() == v.remaining() + 1,
{
    let t = TaskView { id: (v.next_id + 1) as u64, title: trim(title), done: false };
    v.tasks.lemma_filter_push(t, open_pred());
}

/// Toggling a task twice gives back the store it started from.
pub proof fn law_toggle_twice(v: StoreView, id: u64)
    requires
        v.wf(),
    ensures
        v.after_toggle(id).wf(),
        v.after_toggle(id).after_toggle(id) == v,
{
    let w = v.after_toggle(id);
    if v.has_id(id) {
        let i = v.index_of(id);
        assert(w.wf());
        lemma_index_of(w, i);
        assert(w.after_toggle(id).tasks =~= v.tasks);
    }
}

/// Toggling an open task lowers the count of open tasks by one; toggling a
/// done task raises it by one; toggling a missing id changes nothing.
pub proof fn law_toggle_remaining(v: StoreView, id: u64)
    requires
        v.wf(),
    ensures
        !v.has_id(id) ==> v.after_toggle(id) == v,
        v.has_id(id) && !v.tasks[v.index_of(id)].done ==> v.after_toggle(id).remaining() + 1
            == v.remaining(),
        v.has_id(id) && v.tasks[v.index_of(id)].done ==> v.after_toggle(id).remaining()
            == v.remaining() + 1,
{
    if v.has_id(id) {
        let i = v.index_of(id);
        let t = v.tasks[i];
        lemma_filter_len_update(
            v.tasks,
            open_pred(),
            i,
            TaskView { id: t.id, title: t.title, done: !t.done },
        );
    }
}

/// After a delete no task has the id, and the store stays well formed.
pub proof fn law_delete_removes(v: StoreView, id: u64)
    requires
        v.wf(),
    ensures
        v.after_delete(id).wf(),
        !v.after_delete(id).has_id(id),
        v.after_delete(id).lookup(id) is None,
{
    let p = |t: TaskView| t.id != id;
    let f = v.tasks.filter(p);
    assert forall|k: int| 0 <= k < f.len() implies #[trigger] f[k].id != id by {
        v.tasks.lemma_filter_pred(p, k);
    }
    lemma_filter_wf(v, p);
}

/// Filtering keeps the store well formed.
proof fn lemma_filter_wf(v: StoreView, p: spec_fn(TaskView) -> bool)
    requires
        v.wf(),
    ensures
        (StoreView { next_id: v.next_id, tasks: v.tasks.filter(p) }).wf(),
    decreases v.tasks.len(),
{
    reveal(Seq::filter);
    if v.tasks.len() > 0 {
        let d = StoreView { next_id: v.next_id, tasks: v.tasks.drop_last() };
        assert(d.wf());
        lemma_filter_wf(d, p);
        let fd = d.tasks.filter(p);
        let last = v.tasks.last();
        assert forall|k: int| 0 <= k < fd.len() implies #[trigger] fd[k].id < last.id by {
            d.tasks.lemma_filter_contains_rev(p, fd[k]);
            let j = choose|j: int| 0 <= j < d.tasks.len() && d.tasks[j] == fd[k];
            assert(v.tasks[j].id < v.tasks[v.tasks.len() - 1].id);
        }
        let f = v.tasks.filter(p);
        if p(last) {
            assert(f == fd.push(last));
            assert forall|i: int, j: int| 0 <= i < j < f.len() implies #[trigger] f[i].id
                < #[trigger] f[j].id by {
                let w = StoreView { next_id: v.next_id, tasks: fd };
                assert(w.wf());
                if j == f.len() - 1 {
                    assert(f[i] == fd[i]);
                    assert(fd[i].id < last.id);
                    assert(f[j] == last);
                } else {
                    assert(f[i] == fd[i] && f[j] == fd[j]);
                    assert(w.tasks[i].id < w.tasks[j].id);
                }
            }
            assert forall|i: int| 0 <= i < f.len() implies #[trigger] f[i].id <= v.next_id by {
                if i < fd.len() {
                    assert(f[i] == fd[i]);
                }
            }
        } else {
            assert(f == fd);
        }
    }
}

/// Deleting one id leaves the task under every other id as it was.
pub proof fn law_delete_keeps_others(v: StoreView, id: u64, other: u64)
    requires
        v.wf(),
        other != id,
    ensures
        v.after_delete(id).lookup(other) == v.lookup(other),
{
    let p = |t: TaskView| t.id != id;
    let w = v.after_delete(id);
    lemma_filter_wf(v, p);
    if v.has_id(other) {
        let i = v.index_of(other);
        let t = v.tasks[i];
        v.tasks.lemma_filter_contains(p, i);
        let j = choose|j: int| 0 <= j < w.tasks.len() && w.tasks[j] == t;
        lemma_index_of(w, j);
    } else {
        if w.has_id(other) {
            let j = w.index_of(other);
            v.tasks.lemma_filter_contains_rev(p, w.tasks[j]);
        }
    }
}

/// Ids are never reused: after deleting a task, the next task created gets a
/// different id.
pub proof fn law_ids_not_reused(v: StoreView, id: u64, title: Seq<char>)
    requires
        v.wf(),
        v.has_id(id),
        v.next_id < u64::MAX,
    ensures
        v.after_delete(id).next_id == v.next_id,
        v.after_delete(id).after_create(title).next_id != id,
{
    let i = v.index_of(id);
    assert(v.tasks[i].id <= v.next_id);
}

/// A search whose query is empty once trimmed returns every task, in order.
pub proof fn law_search_empty_query(v: StoreView, query: Seq<char>)
    requires
        trim(query).len() == 0,
    ensures
        v.search(query) == v.tasks,
{
    lemma_filter_all(v.tasks, search_pred(trim(query)));
}

/// Searching ignores case: two queries that lowercase (after trimming) to the
/// same text return the same tasks.
pub proof fn law_search_case_insensitive(v: StoreView, q1: Seq<char>, q2: Seq<char>)
    requires
        trim(q1).len() == 0 <==> trim(q2).len() == 0,
        lowercased(trim(q1)) == lowercased(trim(q2)),
    ensures
        v.search(q1) == v.search(q2),
{
}

/// Every task a search returns is a task of the store.
pub proof fn law_search_results_in_store(v: StoreView, query: Seq<char>, k: int)
    requires
        0 <= k < v.search(query).len(),
    ensures
        v.tasks.contains(v.search(query)[k]),
{
    let p = search_pred(trim(query));
    v.tasks.lemma_filter_contains_rev(p, v.tasks.filter(p)[k]);
}

/// Filtering by a stronger test after a weaker one is filtering by the stronger one.
proof fn lemma_filter_filter<A>(s: Seq<A>, weak: spec_fn(A) -> bool, strong: spec_fn(A) -> bool)
    requires
        forall|x: A| #[trigger] strong(x) ==> weak(x),
    ensures
        s.filter(weak).filter(strong) == s.filter(strong),
    decreases s.len(),
{
    reveal(Seq::filter);
    if s.len() > 0 {
        let d = s.drop_last();
        lemma_filter_filter(d, weak, strong);
        let x = s.last();
        if weak(x) {
            d.filter(weak).lemma_filter_push(x, strong);
        }
    }
}

/// Whitespace around a query does not change what it finds.
pub proof fn law_search_padded(v: StoreView, w1: Seq<char>, query: Seq<char>, w2: Seq<char>)
    requires
        all_white_space(w1),
        all_white_space(w2),
    ensures
        v.search(w1 + query + w2) == v.search(query),
{
    lemma_trim_padded(w1, query, w2);
}

/// A search for `" \t" + query + " "` finds the same tasks as one for `query`.
pub proof fn law_search_ignores_surrounding_space(v: StoreView, query: Seq<char>)
    ensures
        v.search(seq![' ', '\t'] + query + seq![' ']) == v.search(query),
{
    let w1 = seq![' ', '\t'];
    let w2 = seq![' '];
    assert(all_white_space(w1)) by {
        assert forall|i: int| 0 <= i < w1.len() implies is_white_space(#[trigger] w1[i]) by {
            assert(w1[0] == ' ' && w1[1] == '\t');
        }
    }
    assert(all_white_space(w2)) by {
        assert forall|i: int| 0 <= i < w2.len() implies is_white_space(#[trigger] w2[i]) by {
            assert(w2[0] == ' ');
        }
    }
    law_search_padded(v, w1, query, w2);
}

/// Every search returns the tasks of an empty search (all tasks) that pass
/// its own test, in the same order.
pub proof fn law_search_within_all(v: StoreView, query: Seq<char>)
    ensures
        v.search(query) == v.search(Seq::empty()).filter(search_pred(trim(query))),
{
    assert(trim(Seq::<char>::empty()) == Seq::<char>::empty());
    law_search_empty_query(v, Seq::empty());
}

/// For ASCII queries letter case does not matter: two queries that agree up
/// to the case of `A`..`Z` find the same tasks.
pub proof fn law_search_ascii_case(v: StoreView, q1: Seq<char>, q2: Seq<char>)
    requires
        is_ascii_text(q1),
        is_ascii_text(q2),
        ascii_lower(q1) == ascii_lower(q2),
    ensures
        v.search(q1) == v.search(q2),
{
    let t1 = trim(q1);
    let t2 = trim(q2);
    lemma_trim_ascii(q1);
    lemma_trim_ascii(q2);
    lemma_trim_ascii_lower(q1);
    lemma_trim_ascii_lower(q2);
    assert(lowercased(t1) == lowercased(t2));
    assert(t1.len() == ascii_lower(t1).len());
    assert(t2.len() == ascii_lower(t2).len());
    assert(search_pred(t1) =~= search_pred(t2));
}

/// An ASCII query finds the same tasks as its uppercase and its lowercase
/// form.
pub proof fn law_search_ascii_upper_lower(v: StoreView, query: Seq<char>)
    requires
        is_ascii_text(query),
    ensures
        v.search(ascii_upper(query)) == v.search(query),
        v.search(ascii_lower(query)) == v.search(query),
{
    lemma_ascii_case_forms(query);
    law_search_ascii_case(v, ascii_upper(query), query);
    law_search_ascii_case(v, ascii_lower(query), query);
}

/// A narrower query finds no more: when the lowercased, trimmed `q1` occurs in
/// the lowercased, trimmed `q2` (and `q2` trims to empty only if `q1` does),
/// the tasks `q2` finds are those of `q1`'s results that `q2` matches, in order.
pub proof fn law_search_narrower(v: StoreView, q1: Seq<char>, q2: Seq<char>)
    requires
        contains_seq(lowercased(trim(q2)), lowercased(trim(q1))),
        trim(q2).len() == 0 ==> trim(q1).len() == 0,
    ensures
        v.search(q2) == v.search(q1).filter(search_pred(trim(q2))),
{
    let p1 = search_pred(trim(q1));
    let p2 = search_pred(trim(q2));
    assert forall|t: TaskView| #[trigger] p2(t) implies p1(t) by {
        if trim(q2).len() != 0 && trim(q1).len() != 0 {
            lemma_contains_trans(lowercased(t.title), lowercased(trim(q2)), lowercased(trim(q1)));
        }
    }
    lemma_filter_filter(v.tasks, p1, p2);
}

/// A store operation, as a caller of `create`, `toggle` and `delete` makes it.
pub enum StoreOp {
    Create(Seq<char>),
    Toggle(u64),
    Delete(u64),
}

/// The store after one operation.
pub open spec fn after_op(v: StoreView, op: StoreOp) -> StoreView {
    match op {
        StoreOp::Create(title) => v.after_create(title),
        StoreOp::Toggle(id) => v.after_toggle(id),
        StoreOp::Delete(id) => v.after_delete(id),
    }
}

/// The store after a sequence of operations, in order.
pub open spec fn after_ops(v: StoreView, ops: Seq<StoreOp>) -> StoreView
    decreases ops.len(),
{
    if ops.len() == 0 {
        v
    } else {
        after_op(after_ops(v, ops.drop_last()), ops.last())
    }
}

/// How many of the operations are creates.
pub open spec fn creates(ops: Seq<StoreOp>) -> nat
    decreases ops.len(),
{
    if ops.len() == 0 {
        0
    } else {
        creates(ops.drop_last()) + if ops.last() is Create {
            1nat
        } else {
            0nat
        }
    }
}

/// The ids the creates among the operations return, in order.
pub open spec fn created_ids(v: StoreView, ops: Seq<StoreOp>) -> Seq<u64>
    decreases ops.len(),
{
    if ops.len() == 0 {
        Seq::empty()
    } else {
        let before = ops.drop_last();
        let ids = created_ids(v, before);
        if ops.last() is Create {
            ids.push((after_ops(v, before).next_id + 1) as u64)
        } else {
            ids
        }
    }
}

/// The store `AppState::new` gives.
pub open spec fn empty_store() -> StoreView {
    StoreView { next_id: 0, tasks: Seq::empty() }
}

/// Starting from an empty store, after any sequence of operations with `k`
/// creates the counter is `k` and the creates returned the ids `1, 2, ..., k`
/// in order; the next create returns `k + 1`, above every id returned before,
/// so no id is ever reused, deleted or not.
pub proof fn law_counter_counts_creates(ops: Seq<StoreOp>)
    requires
        creates(ops) < u64::MAX,
    ensures
        after_ops(empty_store(), ops).next_id == creates(ops),
        created_ids(empty_store(), ops).len() == creates(ops),
        forall|i: int|
            0 <= i < creates(ops) ==> #[trigger] created_ids(empty_store(), ops)[i] == i + 1,
        forall|i: int|
            0 <= i < creates(ops) ==> #[trigger] created_ids(empty_store(), ops)[i]
                < after_ops(empty_store(), ops).next_id + 1,
    decreases ops.len(),
{
    if ops.len() > 0 {
        let before = ops.drop_last();
        law_counter_counts_creates(before);
        let v = after_ops(empty_store(), before);
        let ids = created_ids(empty_store(), before);
        match ops.last() {
            StoreOp::Create(title) => {
                assert(after_ops(empty_store(), ops) == v.after_create(title));
                assert(created_ids(empty_store(), ops) == ids.push((v.next_id + 1) as u64));
            },
            StoreOp::Toggle(id) => {
                assert(after_ops(empty_store(), ops) == v.after_toggle(id));
            },
            StoreOp::Delete(id) => {
                assert(after_ops(empty_store(), ops) == v.after_delete(id));
            },
        }
    }
}

/// A search for a query that is not blank once trimmed finds exactly the
/// tasks whose lowercased title contains the lowercased, trimmed query,
/// whether done or not and whatever the query's length; a blank query finds
/// every task.
pub proof fn law_search_finds_matching_titles(v: StoreView, query: Seq<char>, i: int)
    requires
        0 <= i < v.tasks.len(),
    ensures
        trim(query).len() > 0 ==> (v.search(query).contains(v.tasks[i]) <==> contains_seq(
            lowercased(v.tasks[i].title),
            lowercased(trim(query)),
        )),
        trim(query).len() == 0 ==> v.search(query).contains(v.tasks[i]),
{
    let p = search_pred(trim(query));
    let t = v.tasks[i];
    if p(t) {
        v.tasks.lemma_filter_contains(p, i);
    } else {
        if v.search(query).contains(t) {
            let k = choose|k: int| 0 <= k < v.search(query).len() && v.search(query)[k] == t;
            v.tasks.lemma_filter_pred(p, k);
        }
    }
}

/// A task's own title, as a query, finds that task (done or not), when the
/// title is not blank.
pub proof fn law_search_by_own_title(v: StoreView, i: int)
    requires
        0 <= i < v.tasks.len(),
        trim(v.tasks[i].title).len() > 0,
        v.tasks[i].title == trim(v.tasks[i].title),
    ensures
        v.search(v.tasks[i].title).contains(v.tasks[i]),
{
    let l = lowercased(v.tasks[i].title);
    assert(l.subrange(0, l.len() as int) =~= l);
    assert(crate::text::occurs_at(l, l, 0));
    law_search_finds_matching_titles(v, v.tasks[i].title, i);
}

/// Titles are judged by their length in characters: an empty title gets the
/// empty-title error, one longer than `MAX_TITLE_LEN` always gets the
/// too-long error, and every other title passes.
pub proof fn law_title_length_rule(t: Seq<char>)
    ensures
        t.len() == 0 ==> title_error(t) == Some(empty_title_message()),
        t.len() > MAX_TITLE_LEN ==> title_error(t) == Some(long_title_message()),
        0 < t.len() <= MAX_TITLE_LEN ==> title_error(t) is None,
{
}

/// The joined body is every fragment in order: adding a rendered fragment
/// appends its text, adding a failed one appends nothing.
pub proof fn law_joined_appends<E>(parts: Seq<Result<String, E>>, s: String, e: E)
    ensures
        joined(parts.push(Ok(s))) == joined(parts) + s@,
        joined(parts.push(Err(e))) == joined(parts),
{
    assert(parts.push(Ok::<String, E>(s)).drop_last() =~= parts);
    assert(parts.push(Err::<String, E>(e)).drop_last() =~= parts);
}

/// Two rendered fragments join to the first followed by the second.
pub proof fn law_joined_two<E>(a: String, b: String)
    ensures
        joined(seq![Ok::<String, E>(a), Ok::<String, E>(b)]) == a@ + b@,
{
    let empty = Seq::<Result<String, E>>::empty();
    law_joined_appends(empty, a, arbitrary());
    assert(empty.push(Ok::<String, E>(a)) =~= seq![Ok::<String, E>(a)]);
    law_joined_appends(seq![Ok::<String, E>(a)], b, arbitrary());
    assert(seq![Ok::<String, E>(a)].push(Ok::<String, E>(b)) =~= seq![
        Ok::<String, E>(a),
        Ok::<String, E>(b),
    ]);
    assert(joined(empty) == Seq::<char>::empty());
    assert(Seq::<char>::empty() + a@ =~= a@);
}

/// What a lookup gives back is the stored task itself: it carries the id
/// asked for and is one of the store's tasks; and in a well-formed store,
/// looking up the id of any stored task gives exactly that task, whatever
/// its state.
pub proof fn law_lookup_gives_stored_task(v: StoreView, id: u64, i: int)
    requires
        v.wf(),
        0 <= i < v.tasks.len(),
    ensures
        v.lookup(id) matches Some(t) ==> t.id == id && v.tasks.contains(t),
        v.lookup(id) is None <==> !v.has_id(id),
        v.lookup(v.tasks[i].id) == Some(v.tasks[i]),
{
    lemma_index_of(v, i);
    if v.has_id(id) {
        let j = v.index_of(id);
        assert(v.tasks[j].id == id);
        assert(v.tasks.contains(v.tasks[j]));
    }
}

} // verus!
