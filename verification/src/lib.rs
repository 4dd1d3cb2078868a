//! A local text search: which lines of a byte stream match a regular
//! expression, and what is printed for each of them.

pub mod chunks;
pub mod fault;
pub mod file;
pub mod file_laws;
pub mod input;
pub mod lines;
pub mod output;
pub mod output_laws;
pub mod pattern;
pub mod print_laws;
pub mod run;
pub mod run_laws;
pub mod search;
pub mod search_laws;
pub mod size;
pub mod size_laws;
pub mod walk;
pub mod walk_laws;
