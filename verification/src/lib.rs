//! A project-switcher core: an index of project directories gathered from
//! configured roots, a fuzzy-ranking match engine over their names, a
//! bounded-window interactive selector, and a parser for the version-control
//! client's branch status. Every function here carries a contract; the
//! surrounding command-line shell feeds it plain values and performs the
//! I/O.

pub mod actions;
pub mod error;
pub mod exec_lookup;
pub mod fuzzy;
pub mod git_status;
pub mod projects;
pub mod select_ui;
pub mod strutil;
pub mod utils;
