//! The in-memory task store. Tasks keep their creation order; ids are handed
//! out from a counter and never reused.

use vstd::prelude::*;

use crate::text::{
    chars_of, contains_chars, contains_seq, lemma_trim_of_trimmed, lowercased,
    to_lowercase, trim, trim_str,
};

verus! {

broadcast use vstd::seq_lib::group_seq_properties;

/// A single task.
#[derive(Debug, PartialEq, Eq)]
pub struct Task {
    pub id: u64,
    pub title: String,
    pub done: bool,
}

/// What a task holds, as plain values.
pub struct TaskView {
    pub id: u64,
    pub title: Seq<char>,
    pub done: bool,
}

impl View for Task {
    type V = TaskView;

    open spec fn view(&self) -> TaskView {
        TaskView { id: self.id, title: self.title@, done: self.done }
    }
}

impl Clone for Task {
    fn clone(&self) -> (r: Self)
        ensures
            r == *self,
    {
        Task { id: self.id, title: self.title.clone(), done: self.done }
    }
}

/// The views of a sequence of tasks.
pub open spec fn tasks_view(s: Seq<Task>) -> Seq<TaskView> {
    s.map_values(|t: Task| t@)
}

/// The view of an optional task.
pub open spec fn opt_task_view(o: Option<Task>) -> Option<TaskView> {
    match o {
        Some(t) => Some(t@),
        None => None,
    }
}

/// The store as plain values: the last id handed out and the tasks in order.
pub struct StoreView {
    pub next_id: u64,
    pub tasks: Seq<TaskView>,
}

impl StoreView {
    /// Ids strictly increase along the list (so no id occurs twice), and none
    /// is above the last id handed out.
    pub open spec fn wf(self) -> bool {
        &&& forall|i: int, j: int|
            0 <= i < j < self.tasks.len() ==> #[trigger] self.tasks[i].id
                < #[trigger] self.tasks[j].id
        &&& forall|i: int| 0 <= i < self.tasks.len() ==> #[trigger] self.tasks[i].id <= self.next_id
    }

    /// Some task has this id.
    pub open spec fn has_id(self, id: u64) -> bool {
        exists|i: int| 0 <= i < self.tasks.len() && #[trigger] self.tasks[i].id == id
    }

    /// The position of the task with this id (meaningful when `has_id`).
    pub open spec fn index_of(self, id: u64) -> int {
        choose|i: int| 0 <= i < self.tasks.len() && #[trigger] self.tasks[i].id == id
    }

    /// The task with this id, if any.
    pub open spec fn lookup(self, id: u64) -> Option<TaskView> {
        if self.has_id(id) {
            Some(self.tasks[self.index_of(id)])
        } else {
            None
        }
    }

    /// The store after creating a task with this (untrimmed) title.
    pub open spec fn after_create(self, title: Seq<char>) -> StoreView {
        let id = (self.next_id + 1) as u64;
        StoreView {
            next_id: id,
            tasks: self.tasks.push(TaskView { id, title: trim(title), done: false }),
        }
    }

    /// The store after flipping `done` of the task with this id.
    pub open spec fn after_toggle(self, id: u64) -> StoreView {
        if self.has_id(id) {
            let i = self.index_of(id);
            let t = self.tasks[i];
            StoreView {
                next_id: self.next_id,
                tasks: self.tasks.update(i, TaskView { id: t.id, title: t.title, done: !t.done }),
            }
        } else {
            self
        }
    }

    /// The store after removing every task with this id.
    pub open spec fn after_delete(self, id: u64) -> StoreView {
        StoreView { next_id: self.next_id, tasks: self.tasks.filter(|t: TaskView| t.id != id) }
    }

    /// The tasks a search for `query` returns, in store order.
    pub open spec fn search(self, query: Seq<char>) -> Seq<TaskView> {
        self.tasks.filter(search_pred(trim(query)))
    }

    /// The number of tasks not yet done.
    pub open spec fn remaining(self) -> nat {
        self.tasks.filter(open_pred()).len()
    }
}

/// A task matches the (already trimmed) query `q`: `q` is empty, or the
/// lowercased title contains the lowercased `q`.
pub open spec fn search_pred(q: Seq<char>) -> spec_fn(TaskView) -> bool {
    |t: TaskView| q.len() == 0 || contains_seq(lowercased(t.title), lowercased(q))
}

/// A task is not yet done.
pub open spec fn open_pred() -> spec_fn(TaskView) -> bool {
    |t: TaskView| !t.done
}

/// Every element satisfies the predicate, so filtering keeps them all.
pub proof fn lemma_filter_all<A>(s: Seq<A>, p: spec_fn(A) -> bool)
    requires
        forall|i: int| 0 <= i < s.len() ==> p(#[trigger] s[i]),
    ensures
        s.filter(p) == s,
    decreases s.len(),
{
    reveal(Seq::filter);
    if s.len() > 0 {
        lemma_filter_all(s.drop_last(), p);
        assert(s.drop_last().push(s.last()) =~= s);
    }
}

/// Only the element at `i` fails the predicate, so filtering removes just it.
pub proof fn lemma_filter_one<A>(s: Seq<A>, p: spec_fn(A) -> bool, i: int)
    requires
        0 <= i < s.len(),
        !p(s[i]),
        forall|j: int| 0 <= j < s.len() && j != i ==> p(#[trigger] s[j]),
    ensures
        s.filter(p) == s.remove(i),
    decreases s.len(),
{
    reveal(Seq::filter);
    let d = s.drop_last();
    if i == s.len() - 1 {
        lemma_filter_all(d, p);
        assert(s.remove(i) =~= d);
    } else {
        lemma_filter_one(d, p, i);
        assert(d.remove(i).push(s.last()) =~= s.remove(i));
    }
}

/// Filtering after `take(k + 1)` adds at most the element at `k`.
pub proof fn lemma_filter_take_step<A>(s: Seq<A>, p: spec_fn(A) -> bool, k: int)
    requires
        0 <= k < s.len(),
    ensures
        s.take(k + 1).filter(p) == if p(s[k]) {
            s.take(k).filter(p).push(s[k])
        } else {
            s.take(k).filter(p)
        },
{
    assert(s.take(k + 1) =~= s.take(k).push(s[k]));
    s.take(k).lemma_filter_push(s[k], p);
}

/// In a well-formed store, the task at `i` is the one `index_of` picks for its id.
pub proof fn lemma_index_of(v: StoreView, i: int)
    requires
        v.wf(),
        0 <= i < v.tasks.len(),
    ensures
        v.has_id(v.tasks[i].id),
        v.index_of(v.tasks[i].id) == i,
{
    let id = v.tasks[i].id;
    assert(v.tasks[i].id == id);
    let j = v.index_of(id);
    if j < i {
        assert(v.tasks[j].id < v.tasks[i].id);
    } else if j > i {
        assert(v.tasks[i].id < v.tasks[j].id);
    }
}

/// Splitting a filter around position `i`.
proof fn lemma_filter_split<A>(s: Seq<A>, p: spec_fn(A) -> bool, i: int)
    requires
        0 <= i < s.len(),
    ensures
        s.filter(p) == s.take(i).filter(p) + seq![s[i]].filter(p) + s.skip(i + 1).filter(p),
{
    assert(s =~= s.take(i) + seq![s[i]] + s.skip(i + 1));
    Seq::filter_distributes_over_add(s.take(i) + seq![s[i]], s.skip(i + 1), p);
    Seq::filter_distributes_over_add(s.take(i), seq![s[i]], p);
}

proof fn lemma_filter_single<A>(x: A, p: spec_fn(A) -> bool)
    ensures
        seq![x].filter(p) == if p(x) {
            seq![x]
        } else {
            Seq::<A>::empty()
        },
{
    reveal(Seq::filter);
    assert(seq![x].drop_last() =~= Seq::<A>::empty());
    assert(Seq::<A>::empty().filter(p) == Seq::<A>::empty());
}

/// Replacing the element at `i` changes the filtered length by the change in
/// whether that position passes.
pub proof fn lemma_filter_len_update<A>(s: Seq<A>, p: spec_fn(A) -> bool, i: int, x: A)
    requires
        0 <= i < s.len(),
    ensures
        s.update(i, x).filter(p).len() + (if p(s[i]) {
            1int
        } else {
            0int
        }) == s.filter(p).len() + (if p(x) {
            1int
        } else {
            0int
        }),
{
    let u = s.update(i, x);
    lemma_filter_split(s, p, i);
    lemma_filter_split(u, p, i);
    assert(u.take(i) =~= s.take(i));
    assert(u.skip(i + 1) =~= s.skip(i + 1));
    lemma_filter_single(s[i], p);
    lemma_filter_single(x, p);
}

/// The in-memory store.
pub struct AppState {
    next_id: u64,
    tasks: Vec<Task>,
}

impl View for AppState {
    type V = StoreView;

    closed spec fn view(&self) -> StoreView {
        StoreView { next_id: self.next_id, tasks: tasks_view(self.tasks@) }
    }
}

impl Default for AppState {
    fn default() -> (r: Self)
        ensures
            r@.wf(),
            r@.next_id == 0,
            r@.tasks == Seq::<TaskView>::empty(),
    {
        AppState::new()
    }
}

impl AppState {
    /// The store's invariant.
    pub open spec fn wf(&self) -> bool {
        self@.wf()
    }

    /// An empty store.
    pub fn new() -> (r: Self)
        ensures
            r.wf(),
            r@.next_id == 0,
            r@.tasks == Seq::<TaskView>::empty(),
    {
        let r = AppState { next_id: 0, tasks: Vec::new() };
        assert(r@.tasks =~= Seq::<TaskView>::empty());
        r
    }

    /// A store holding three example tasks, the last one done.
    pub fn with_sample_data() -> (r: Self)
        ensures
            r.wf(),
            r@.next_id == 3,
            r@.tasks == seq![
                TaskView { id: 1, title: "Read the htmx docs"@, done: false },
                TaskView { id: 2, title: "Write an Askama template"@, done: false },
                TaskView { id: 3, title: "Ship it"@, done: true },
            ],
    {
        let mut state = Self::new();
        state.create("Read the htmx docs");
        state.create("Write an Askama template");
        let id = state.create("Ship it");
        let _ = state.toggle(id);
        proof {
            reveal_strlit("Read the htmx docs");
            reveal_strlit("Write an Askama template");
            reveal_strlit("Ship it");
            lemma_trim_of_trimmed("Read the htmx docs"@);
            lemma_trim_of_trimmed("Write an Askama template"@);
            lemma_trim_of_trimmed("Ship it"@);
            lemma_index_of(state@, 2);
            assert(state@.tasks =~= seq![
                TaskView { id: 1, title: "Read the htmx docs"@, done: false },
                TaskView { id: 2, title: "Write an Askama template"@, done: false },
                TaskView { id: 3, title: "Ship it"@, done: true },
            ]);
        }
        state
    }

    /// A new task can still get an id (the counter has not reached `u64::MAX`).
    pub fn has_room(&self) -> (r: bool)
        ensures
            r == (self@.next_id < u64::MAX),
    {
        self.next_id < u64::MAX
    }

    /// Insert a task and return its id. The title is trimmed; callers validate emptiness.
    pub fn create(&mut self, title: &str) -> (id: u64)
        requires
            old(self).wf(),
            old(self)@.next_id < u64::MAX,
        ensures
            final(self).wf(),
            id == old(self)@.next_id + 1,
            final(self)@ == old(self)@.after_create(title@),
    {
        let id = self.next_id + 1;
        let t = trim_str(title);
        let task = Task { id, title: String::from_str(t), done: false };
        self.next_id = id;
        self.tasks.push(task);
        assert(self@.tasks =~= old(self)@.tasks.push(
            TaskView { id, title: trim(title@), done: false },
        ));
        id
    }

    /// The position of the task with this id, if any.
    fn position(&self, id: u64) -> (r: Option<usize>)
        requires
            self.wf(),
        ensures
            match r {
                Some(i) => i < self@.tasks.len() && self@.tasks[i as int].id == id
                    && self@.index_of(id) == i,
                None => !self@.has_id(id),
            },
    {
        let n = self.tasks.len();
        let mut i: usize = 0;
        while i < n
            invariant
                self.wf(),
                n == self@.tasks.len(),
                i <= n,
                forall|k: int| 0 <= k < i ==> #[trigger] self@.tasks[k].id != id,
            decreases n - i,
        {
            if self.tasks[i].id == id {
                proof {
                    lemma_index_of(self@, i as int);
                }
                return Some(i);
            }
            i = i + 1;
        }
        None
    }

    /// The task with this id, if any.
    pub fn get(&self, id: u64) -> (r: Option<Task>)
        requires
            self.wf(),
        ensures
            opt_task_view(r) == self@.lookup(id),
    {
        match self.position(id) {
            Some(i) => Some(self.tasks[i].clone()),
            None => None,
        }
    }

    /// Flip `done`. Returns the updated task, or None if it does not exist.
    pub fn toggle(&mut self, id: u64) -> (r: Option<Task>)
        requires
            old(self).wf(),
        ensures
            final(self).wf(),
            final(self)@ == old(self)@.after_toggle(id),
            opt_task_view(r) == final(self)@.lookup(id),
    {
        match self.position(id) {
            Some(i) => {
                let d = !self.tasks[i].done;
                self.tasks[i].done = d;
                assert(self@.tasks =~= old(self)@.after_toggle(id).tasks);
                proof {
                    lemma_index_of(self@, i as int);
                }
                Some(self.tasks[i].clone())
            },
            None => None,
        }
    }

    /// Remove a task. Returns true if something was removed.
    pub fn delete(&mut self, id: u64) -> (r: bool)
        requires
            old(self).wf(),
        ensures
            final(self).wf(),
            final(self)@ == old(self)@.after_delete(id),
            r == old(self)@.has_id(id),
    {
        let ghost pred = |t: TaskView| t.id != id;
        match self.position(id) {
            Some(i) => {
                let ghost before = self@.tasks;
                proof {
                    assert forall|j: int| 0 <= j < before.len() && j != i implies pred(
                        #[trigger] before[j],
                    ) by {
                        if j < i {
                            assert(before[j].id < before[i as int].id);
                        } else {
                            assert(before[i as int].id < before[j].id);
                        }
                    }
                    lemma_filter_one(before, pred, i as int);
                }
                let _ = self.tasks.remove(i);
                assert(self@.tasks =~= before.remove(i as int));
                true
            },
            None => {
                proof {
                    lemma_filter_all(self@.tasks, pred);
                }
                false
            },
        }
    }

    /// Tasks whose title contains `query` (case-insensitive). Empty query returns all.
    pub fn search(&self, query: &str) -> (r: Vec<Task>)
        requires
            self.wf(),
        ensures
            tasks_view(r@) == self@.search(query@),
    {
        let tq = trim_str(query);
        let q = to_lowercase(tq);
        assert(q@ == lowercased(tq@));
        let qv = chars_of(q.as_str());
        let ghost pred = search_pred(tq@);
        let ghost all = self@.tasks;
        let n = self.tasks.len();
        let mut out: Vec<Task> = Vec::new();
        let mut i: usize = 0;
        assert(all.take(0) =~= Seq::<TaskView>::empty());
        proof {
            reveal(Seq::filter);
        }
        while i < n
            invariant
                n == all.len(),
                all == self@.tasks,
                pred == search_pred(tq@),
                qv@ == lowercased(tq@),
                qv@.len() == 0 <==> tq@.len() == 0,
                i <= n,
                tasks_view(out@) == all.take(i as int).filter(pred),
            decreases n - i,
        {
            let t = &self.tasks[i];
            let keep = if qv.len() == 0 {
                true
            } else {
                let lt = to_lowercase(t.title.as_str());
                assert(lt@ == lowercased(t.title@));
                let lv = chars_of(lt.as_str());
                contains_chars(&lv, &qv)
            };
            proof {
                lemma_filter_take_step(all, pred, i as int);
                assert(all[i as int] == t@);
            }
            if keep {
                out.push(t.clone());
            }
            assert(tasks_view(out@) =~= all.take(i + 1).filter(pred));
            i = i + 1;
        }
        assert(all.take(n as int) =~= all);
        out
    }

    /// Number of tasks not yet done.
    pub fn remaining(&self) -> (r: usize)
        requires
            self.wf(),
        ensures
            r == self@.remaining(),
    {
        let ghost pred = open_pred();
        let ghost all = self@.tasks;
        let n = self.tasks.len();
        let mut count: usize = 0;
        let mut i: usize = 0;
        assert(all.take(0) =~= Seq::<TaskView>::empty());
        proof {
            reveal(Seq::filter);
        }
        while i < n
            invariant
                n == all.len(),
                all == self@.tasks,
                pred == open_pred(),
                i <= n,
                count == all.take(i as int).filter(pred).len(),
                count <= i,
            decreases n - i,
        {
            proof {
                lemma_filter_take_step(all, pred, i as int);
            }
            if !self.tasks[i].done {
                count = count + 1;
            }
            i = i + 1;
        }
        assert(all.take(n as int) =~= all);
        count
    }
}

} // verus!
