//! The values each page and fragment is rendered from, one type per
//! template. Field names match what the templates read.

use vstd::prelude::*;

use crate::state::Task;

verus! {

/// Full page: layout + search box + form + list.
pub struct IndexPage {
    pub csrf_token: String,
    pub query: String,
    pub tasks: Vec<Task>,
    pub count: RemainingCount,
    pub form: TaskForm,
}

/// Fragment: the list only (search results).
pub struct TaskList {
    pub query: String,
    pub tasks: Vec<Task>,
}

/// Fragment: one `<li>`.
pub struct TaskRow {
    pub task: Task,
}

/// Fragment: remaining counter. `oob = true` makes htmx swap it out-of-band.
#[derive(Clone, Copy, Debug)]
pub struct RemainingCount {
    pub remaining: usize,
    pub oob: bool,
}

/// Fragment: the create form. `error` is shown inline on validation failure.
#[derive(Debug)]
pub struct TaskForm {
    pub title: String,
    pub error: Option<String>,
    pub oob: bool,
}

impl Clone for TaskForm {
    fn clone(&self) -> (r: Self)
        ensures
            r == *self,
    {
        let error = match &self.error {
            Some(e) => Some(e.clone()),
            None => None,
        };
        TaskForm { title: self.title.clone(), error, oob: self.oob }
    }
}

impl Default for TaskForm {
    /// An empty form, shown in place.
    fn default() -> (r: Self)
        ensures
            r.title@ == Seq::<char>::empty(),
            r.error is None,
            !r.oob,
    {
        TaskForm { title: String::new(), error: None, oob: false }
    }
}

} // verus!
