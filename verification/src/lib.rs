//! Frequency counts over audit log lines.
//!
//! A line is a run of `key=value` tokens separated by spaces; a value may be wrapped in quotes
//! or round brackets and may then hold spaces itself. Each line is parsed into an [`Entry`], and
//! the entries are folded into a table that says, for every subject, how often each value of
//! each field was seen. Subjects, fields and values stand in the table in the order in which
//! the input first shows them.

pub mod entry;
pub mod number;
pub mod ordered;
pub mod report;
pub mod stats;
pub mod text;
pub mod tokenizer;

pub use entry::{parse_line, Entry};
pub use ordered::{Counts, Fields, Stats};
pub use report::{render, Format, ReportError};
pub use stats::{
    bucket, increment_stat, new_table, record, record_line, subject_key, summarize,
};
pub use tokenizer::{find_next_split, tokenize};
