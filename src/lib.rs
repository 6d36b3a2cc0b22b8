//! A line-oriented test harness: a parser for files of delimited test cases
//! and the bookkeeping of a run over them.
pub mod cursor;
pub mod parser;
pub mod report;
pub mod run;
pub mod text;
