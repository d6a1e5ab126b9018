//! A task list whose tasks are kept as Markdown: the data model, the file format,
//! the operations on task lists and the commands that tie them to a store.

pub mod date;
pub mod text;
pub mod paint;
pub mod task_item;
pub mod commands;
pub mod sort;
pub mod error;
pub mod markdown;
pub mod roundtrip;
pub mod util;
pub mod printer;
pub mod copier;
pub mod prompter;
pub mod storage;
pub mod indices;
pub mod config;
pub mod actions;
pub mod session;
