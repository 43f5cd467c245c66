//! One editor session: its tabs and groups, its side bar and prompts, and the commands that act
//! on them.

pub mod bulk;
pub mod chrome;
pub mod documents;
pub mod edits;
pub mod files;
pub mod finding;
pub mod history;
pub mod layout;
pub mod moves;
pub mod outcome;
pub mod prompts;
pub mod routes;
pub mod run;
pub mod scm;
pub mod start;
pub mod state;
pub mod tabs;
pub mod tree;
