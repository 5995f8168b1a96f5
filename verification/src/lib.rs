//! A terminal browser and runner for project scripts.
//!
//! The scripts of a directory come from its package.json and its scripts.json
//! ([`source`]); they are listed with what is folded up or filtered left away
//! ([`rows`]). [`app`] holds the state, [`events`] says what becomes of it when
//! something happens and what is then to be done outside, and [`panes`] and
//! [`modals`] say what is shown. [`copy_mode`] is for copying from the output of
//! a process, which [`screen`] reads. The modules whose names end in `laws` hold
//! what is true of the others whatever is typed.

pub mod app;
pub mod app_laws;
pub mod below_laws;
pub mod clipboard;
pub mod config;
pub mod copy_laws;
pub mod copy_mode;
pub mod draw;
pub mod edit;
pub mod event_laws;
pub mod events;
pub mod grid;
pub mod json;
pub mod keys;
pub mod layout;
pub mod lines;
pub mod list_laws;
pub mod modals;
pub mod number;
pub mod panes;
pub mod proc_table;
pub mod row_laws;
pub mod rows;
pub mod run_laws;
pub mod runner;
pub mod screen;
pub mod search;
pub mod selection;
pub mod source;
pub mod style;
pub mod text;
pub mod text_input;
pub mod view_laws;
pub mod words;
pub mod yank_laws;
