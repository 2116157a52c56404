//! A journal of entries, one for a day, and what is derived from all of
//! them at each build: the list of the entries, for each entry the entries
//! around it and the dates linked with it, the dates that are named with
//! the entries that name them, and the tags with their counts.
//!
//! Two kinds of instant anchor the entries: `data::datetime::DateTime`
//! counts seconds and `date_time::DateTime` counts milliseconds. Both have
//! one exact text, which `stamp` defines, and reading the text of an
//! instant gives the instant back.
//!
//! `site::build_index` derives the index from the entries in the order of
//! their dates, and `command::build_json::run` makes of it the records that
//! are written. `command::build_html::run` makes the pages of the
//! site from the list of the entries and their records.

pub mod calendar;
pub mod command;
pub mod config;
pub mod data;
pub mod date_time;
pub mod graph;
pub mod index;
pub mod lexical;
pub mod links;
pub mod ordered;
pub mod site;
pub mod stamp;
pub mod tags;
pub mod text;
pub mod window;
