//! Event-sourced todo items: the data model, the replay of an event log into
//! the current set of items, the ordering of loaded events, and the small
//! pieces of text logic the desktop front end relies on.

pub mod time;
pub mod json;
pub mod model;
pub mod event;
pub mod replay;
pub mod order;
pub mod text;
pub mod store;
pub mod ui;
