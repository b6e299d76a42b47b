//! ratodo: a todo list kept in one Markdown file, and the verified core that
//! reads it, captures into it, groups it into an agenda and writes it back.

pub mod agenda;
pub mod capture;
pub mod date;
pub mod done;
pub mod form;
pub mod ics;
pub mod keys;
pub mod layout;
pub mod live;
pub mod model;
pub mod parse;
pub mod screen;
pub mod session;
pub mod strs;
pub mod text;
pub mod theme;
pub mod theme_file;
pub mod ui;
pub mod write;
