//! What each route decides: which fragments a request gets and how the store
//! changes. Reading the request and writing the response is left to the caller.

use vstd::prelude::*;

use crate::state::{tasks_view, AppState, StoreView, TaskView};
use crate::htmx::HxRequest;
use crate::templates::{IndexPage, RemainingCount, TaskForm, TaskList, TaskRow};
use crate::text::{lemma_trim_idempotent, trim, trim_str};

verus! {

/// Longest accepted title, in characters.
pub const MAX_TITLE_LEN: usize = 200;

/// Query string of `GET /`; `q` defaults to empty.
pub struct SearchParams {
    pub q: String,
}

impl Default for SearchParams {
    fn default() -> (r: Self)
        ensures
            r.q@ == Seq::<char>::empty(),
    {
        SearchParams { q: String::new() }
    }
}

/// Form body of `POST /tasks`; `title` defaults to empty.
pub struct CreateForm {
    pub title: String,
}

/// The error shown for an empty title.
pub open spec fn empty_title_message() -> Seq<char> {
    "Title must not be empty."@
}

/// The error shown for a title longer than `MAX_TITLE_LEN` characters.
pub open spec fn long_title_message() -> Seq<char> {
    "Title must be at most 200 characters."@
}

/// The validation error for a (trimmed) title, if any.
pub open spec fn title_error(title: Seq<char>) -> Option<Seq<char>> {
    if title.len() == 0 {
        Some(empty_title_message())
    } else if title.len() > MAX_TITLE_LEN {
        Some(long_title_message())
    } else {
        None
    }
}

/// The view of an optional string.
pub open spec fn opt_string_view(o: Option<String>) -> Option<Seq<char>> {
    match o {
        Some(s) => Some(s@),
        None => None,
    }
}

/// Check a title: it must be non-empty and at most `MAX_TITLE_LEN` characters.
pub fn validate_title(title: &str) -> (r: Option<String>)
    ensures
        opt_string_view(r) == title_error(title@),
{
    if title.is_empty() {
        Some(String::from_str("Title must not be empty."))
    } else if title.unicode_len() > MAX_TITLE_LEN {
        Some(String::from_str("Title must be at most 200 characters."))
    } else {
        None
    }
}

/// Which answer `GET /` gives.
pub enum IndexRoute {
    /// The list fragment (`list_fragment`).
    Fragment,
    /// The full page (`full_page`), which needs the session's CSRF token.
    Page,
}

/// `GET /?q=`: htmx requests get the list fragment, browsers the full page.
pub fn index_route(hx: HxRequest) -> (r: IndexRoute)
    ensures
        r is Fragment <==> hx.0,
        r is Page <==> !hx.0,
{
    if hx.0 {
        IndexRoute::Fragment
    } else {
        IndexRoute::Page
    }
}

/// `GET /?q=` for htmx: the list fragment with the matching tasks.
pub fn list_fragment(state: &AppState, query: String) -> (r: TaskList)
    requires
        state.wf(),
    ensures
        r.query == query,
        tasks_view(r.tasks@) == state@.search(query@),
{
    let tasks = state.search(query.as_str());
    TaskList { query, tasks }
}

/// `GET /?q=` for browsers: the full page with the matching tasks, the
/// counter, an empty form and the session's CSRF token.
pub fn full_page(state: &AppState, query: String, csrf_token: String) -> (r: IndexPage)
    requires
        state.wf(),
    ensures
        r.csrf_token == csrf_token,
        r.query == query,
        tasks_view(r.tasks@) == state@.search(query@),
        r.count.remaining == state@.remaining(),
        !r.count.oob,
        r.form.title@ == Seq::<char>::empty(),
        r.form.error is None,
        !r.form.oob,
{
    let tasks = state.search(query.as_str());
    let remaining = state.remaining();
    IndexPage {
        csrf_token,
        query,
        tasks,
        count: RemainingCount { remaining, oob: false },
        form: TaskForm::default(),
    }
}

/// What `POST /tasks` answers.
pub enum CreateOutcome {
    /// The title was rejected: the form again, in place, with the error (422).
    Invalid(TaskForm),
    /// The task was created: its row, the counter and a cleared form, both
    /// swapped out-of-band.
    Created(TaskRow, RemainingCount, TaskForm),
}

/// `POST /tasks`: validate the trimmed title; on success create the task.
pub fn create(state: &mut AppState, form: CreateForm) -> (r: CreateOutcome)
    requires
        old(state).wf(),
        title_error(trim(form.title@)) is None ==> old(state)@.next_id < u64::MAX,
    ensures
        final(state).wf(),
        match title_error(trim(form.title@)) {
            Some(e) => {
                &&& final(state)@ == old(state)@
                &&& r matches CreateOutcome::Invalid(f)
                &&& f.title@ == form.title@
                &&& f.error matches Some(m) && m@ == e
                &&& !f.oob
            },
            None => {
                &&& final(state)@ == old(state)@.after_create(form.title@)
                &&& r matches CreateOutcome::Created(row, count, f)
                &&& row.task@ == TaskView {
                    id: (old(state)@.next_id + 1) as u64,
                    title: trim(form.title@),
                    done: false,
                }
                &&& count.remaining == final(state)@.remaining()
                &&& count.oob
                &&& f.title@ == Seq::<char>::empty()
                &&& f.error is None
                &&& f.oob
            },
        },
{
    let title = trim_str(form.title.as_str());
    if let Some(error) = validate_title(title) {
        let raw = form.title;
        return CreateOutcome::Invalid(TaskForm { title: raw, error: Some(error), oob: false });
    }
    let ghost before = state@;
    let id = state.create(title);
    proof {
        lemma_trim_idempotent(form.title@);
        crate::laws::law_get_after_create(before, title@);
    }
    let task = state.get(id).unwrap();
    let remaining = state.remaining();
    CreateOutcome::Created(
        TaskRow { task },
        RemainingCount { remaining, oob: true },
        TaskForm { title: String::new(), error: None, oob: true },
    )
}

/// After a toggle the store has the same ids as before.
proof fn lemma_toggle_keeps_ids(v: StoreView, id: u64)
    requires
        v.wf(),
    ensures
        v.after_toggle(id).has_id(id) == v.has_id(id),
{
    if v.has_id(id) {
        let i = v.index_of(id);
        assert(v.after_toggle(id).tasks[i].id == id);
    }
}

/// `POST /tasks/{id}/toggle`: flip the task; answer its row and the counter
/// (out-of-band), or nothing when no task has the id (404).
pub fn toggle(state: &mut AppState, id: u64) -> (r: Option<(TaskRow, RemainingCount)>)
    requires
        old(state).wf(),
    ensures
        final(state).wf(),
        final(state)@ == old(state)@.after_toggle(id),
        r is Some <==> old(state)@.has_id(id),
        r matches Some((row, count)) ==> {
            &&& final(state)@.lookup(id) == Some(row.task@)
            &&& count.remaining == final(state)@.remaining()
            &&& count.oob
        },
{
    proof {
        lemma_toggle_keeps_ids(old(state)@, id);
    }
    match state.toggle(id) {
        Some(task) => {
            let remaining = state.remaining();
            Some((TaskRow { task }, RemainingCount { remaining, oob: true }))
        },
        None => None,
    }
}

/// `DELETE /tasks/{id}`: remove the task; answer the counter (out-of-band),
/// or nothing when no task had the id (404).
pub fn delete(state: &mut AppState, id: u64) -> (r: Option<RemainingCount>)
    requires
        old(state).wf(),
    ensures
        final(state).wf(),
        final(state)@ == old(state)@.after_delete(id),
        r is Some <==> old(state)@.has_id(id),
        r matches Some(count) ==> count.remaining == final(state)@.remaining() && count.oob,
{
    if !state.delete(id) {
        return None;
    }
    let remaining = state.remaining();
    Some(RemainingCount { remaining, oob: true })
}

} // verus!
