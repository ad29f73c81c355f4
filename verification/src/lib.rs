//! A small task manager: an in-memory task store, the decisions behind its
//! HTTP handlers, session-bound CSRF tokens and htmx request helpers.
//!
//! Modules:
//! - `state`     : the task store and its model
//! - `laws`      : properties of the store across operations
//! - `text`      : whitespace, trimming, substring search, lowercasing
//! - `csrf`      : token generation and the token check
//! - `htmx`      : `HX-Request` detection and fragment joining
//! - `templates` : the values each page and fragment is rendered from
//! - `handlers`  : what each route decides

pub mod csrf;
pub mod handlers;
pub mod htmx;
pub mod laws;
pub mod state;
pub mod templates;
pub mod text;

pub use state::{AppState, Task};
