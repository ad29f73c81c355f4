use htmx_tasks::csrf::{
    constant_time_eq, token_from_bytes, fresh_token, is_safe_method, token, token_matches, Method, TOKEN_LEN,
};
use htmx_tasks::handlers::{
    index_route, IndexRoute, create, delete, full_page, list_fragment, toggle, validate_title, CreateForm, CreateOutcome,
    SearchParams, MAX_TITLE_LEN,
};
use htmx_tasks::htmx::{join_fragments, HxRequest};
use htmx_tasks::templates::TaskForm;
use htmx_tasks::AppState;

fn form(title: &str) -> CreateForm {
    CreateForm { title: title.to_string() }
}

#[test]
fn validate_title_bounds() {
    assert_eq!(validate_title("").as_deref(), Some("Title must not be empty."));
    assert_eq!(validate_title("a"), None);
    let max = "é".repeat(MAX_TITLE_LEN);
    assert_eq!(validate_title(&max), None);
    let over = "x".repeat(MAX_TITLE_LEN + 1);
    assert_eq!(
        validate_title(&over).as_deref(),
        Some("Title must be at most 200 characters.")
    );
}

#[test]
fn create_with_blank_title_is_rejected_and_store_unchanged() {
    let mut state = AppState::new();
    match create(&mut state, form("   ")) {
        CreateOutcome::Invalid(f) => {
            assert_eq!(f.title, "   ");
            assert!(f.error.unwrap().contains("must not be empty"));
            assert!(!f.oob);
        }
        CreateOutcome::Created(..) => panic!("blank title must be rejected"),
    }
    assert_eq!(state.remaining(), 0);
    assert!(state.search("").is_empty());
}

#[test]
fn create_with_too_long_title_is_rejected() {
    let mut state = AppState::new();
    let long = format!("  {}  ", "y".repeat(201));
    match create(&mut state, form(&long)) {
        CreateOutcome::Invalid(f) => {
            assert_eq!(f.title, long);
            assert_eq!(f.error.as_deref(), Some("Title must be at most 200 characters."));
        }
        CreateOutcome::Created(..) => panic!("long title must be rejected"),
    }
    assert_eq!(state.remaining(), 0);
}

#[test]
fn create_returns_row_counter_and_cleared_form() {
    let mut state = AppState::new();
    match create(&mut state, form("  Buy milk ")) {
        CreateOutcome::Created(row, count, f) => {
            assert_eq!(row.task.id, 1);
            assert_eq!(row.task.title, "Buy milk");
            assert!(!row.task.done);
            assert_eq!(count.remaining, 1);
            assert!(count.oob);
            assert_eq!(f.title, "");
            assert!(f.error.is_none());
            assert!(f.oob);
        }
        CreateOutcome::Invalid(_) => panic!("valid title must be accepted"),
    }
    assert_eq!(state.remaining(), 1);
}

#[test]
fn toggle_and_delete_update_counter_then_not_found() {
    let mut state = AppState::new();
    let id = state.create("one");
    state.create("two");
    let (row, count) = toggle(&mut state, id).unwrap();
    assert!(row.task.done);
    assert_eq!(row.task.title, "one");
    assert_eq!(count.remaining, 1);
    assert!(count.oob);
    let count = delete(&mut state, id).unwrap();
    assert_eq!(count.remaining, 1);
    assert!(count.oob);
    assert!(state.get(id).is_none());
    assert!(delete(&mut state, id).is_none());
    assert!(toggle(&mut state, id).is_none());
}

#[test]
fn fragment_and_page_show_matching_tasks() {
    let state = AppState::with_sample_data();
    let list = list_fragment(&state, "askama".to_string());
    assert_eq!(list.query, "askama");
    assert_eq!(list.tasks.len(), 1);
    assert_eq!(list.tasks[0].title, "Write an Askama template");
    assert!(list_fragment(&state, "nothing-here".to_string()).tasks.is_empty());

    let params = SearchParams::default();
    let page = full_page(&state, params.q, "tok".to_string());
    assert_eq!(page.csrf_token, "tok");
    assert_eq!(page.query, "");
    assert_eq!(page.tasks.len(), 3);
    assert_eq!(page.count.remaining, 2);
    assert!(!page.count.oob);
    assert_eq!(page.form.title, "");
    assert!(page.form.error.is_none());
    assert!(!page.form.oob);
}

#[test]
fn task_form_default_and_clone() {
    let f = TaskForm::default();
    assert_eq!(f.title, "");
    assert!(f.error.is_none());
    assert!(!f.oob);
    let g = TaskForm { title: "t".to_string(), error: Some("e".to_string()), oob: true };
    let h = g.clone();
    assert_eq!(h.title, "t");
    assert_eq!(h.error.as_deref(), Some("e"));
    assert!(h.oob);
}

#[test]
fn constant_time_eq_is_equality() {
    assert!(constant_time_eq(b"abc", b"abc"));
    assert!(!constant_time_eq(b"abc", b"abd"));
    assert!(!constant_time_eq(b"abc", b"ab"));
    assert!(constant_time_eq(b"", b""));
    assert!(!constant_time_eq(b"\x00", b"\x80"));
}

#[test]
fn fresh_tokens_are_alphanumeric_and_differ() {
    let a = fresh_token();
    let b = fresh_token();
    assert_eq!(a.len(), TOKEN_LEN);
    assert_eq!(a.chars().count(), 32);
    assert!(a.chars().all(|c| c.is_ascii_alphanumeric()));
    assert_ne!(a, b);
}

#[test]
fn token_reuses_stored_and_creates_missing() {
    let (t, fresh) = token(Some("stored".to_string()));
    assert_eq!(t, "stored");
    assert!(!fresh);
    let (t, fresh) = token(None);
    assert!(fresh);
    assert_eq!(t.len(), 32);
    assert!(t.chars().all(|c| c.is_ascii_alphanumeric()));
}

#[test]
fn safe_methods_skip_the_check() {
    for m in [Method::Get, Method::Head, Method::Options, Method::Trace] {
        assert!(is_safe_method(m));
    }
    for m in [
        Method::Post,
        Method::Put,
        Method::Patch,
        Method::Delete,
        Method::Connect,
        Method::Other,
    ] {
        assert!(!is_safe_method(m));
    }
}

#[test]
fn missing_or_wrong_token_does_not_match() {
    assert!(token_matches(Some("abc"), Some("abc")));
    assert!(!token_matches(Some("abc"), None));
    assert!(!token_matches(None, Some("abc")));
    assert!(!token_matches(None, None));
    assert!(!token_matches(Some("abc"), Some("abC")));
}

#[test]
fn hx_request_only_for_exact_true() {
    assert!(HxRequest::from_header(Some(b"true")).0);
    assert!(!HxRequest::from_header(Some(b"True")).0);
    assert!(!HxRequest::from_header(Some(b"true ")).0);
    assert!(!HxRequest::from_header(Some(b"")).0);
    assert!(!HxRequest::from_header(None).0);
}

#[test]
fn fragments_join_in_order_or_fail_on_first_error() {
    let ok: Vec<Result<String, u32>> =
        vec![Ok("<li>".to_string()), Ok("".to_string()), Ok("<p>".to_string())];
    assert_eq!(join_fragments(ok), Ok("<li><p>".to_string()));
    let bad: Vec<Result<String, u32>> = vec![Ok("a".to_string()), Err(1), Ok("b".to_string()), Err(2)];
    assert_eq!(join_fragments(bad), Err(1));
    let none: Vec<Result<String, u32>> = Vec::new();
    assert_eq!(join_fragments(none), Ok(String::new()));
}

#[test]
fn index_route_follows_hx_request() {
    assert!(matches!(index_route(HxRequest(true)), IndexRoute::Fragment));
    assert!(matches!(index_route(HxRequest(false)), IndexRoute::Page));
}

#[test]
fn token_text_follows_drawn_bytes() {
    assert_eq!(token_from_bytes(&b"aZ09".to_vec()), "aZ09");
    assert_eq!(token_from_bytes(&Vec::new()), "");
}
