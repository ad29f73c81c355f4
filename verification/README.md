# htmx-tasks

A small task manager served with htmx, axum and Askama, whose core is a
verified library.

- `src/` is the library, checked by Verus: the task store (`state`), the
  properties it keeps across operations (`laws`), text helpers (`text`), the
  CSRF token rules (`csrf`), htmx helpers (`htmx`), the template values
  (`templates`) and what each route decides (`handlers`).
- `app/` is the server: the axum router and handlers, sessions, the CSRF
  middleware and the Askama templates. It reads requests, hands plain values
  to the library and renders what the library returns.
- `tests/` exercises the library.

Routes:

| Method | Path | Returns |
|---|---|---|
| GET | `/?q=` | page, or `#task-list` fragment for htmx |
| POST | `/tasks` | new `<li>` + oob counter + oob cleared form; 422 with inline error |
| POST | `/tasks/{id}/toggle` | replaced `<li>` + oob counter |
| DELETE | `/tasks/{id}` | oob counter only (empty main swap removes the row) |
