//! A note-keeping engine: notes are stored under a free-form tag and a unique
//! title, classified commands create and search them, matches are rendered as
//! a numbered message with a grid of action tokens, and a single pending-edit
//! slot correlates an edit request with the next inbound text.

pub mod text;
pub mod store;
pub mod search;
pub mod token;
pub mod encoder;
pub mod classify;
pub mod engine;
