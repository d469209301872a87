//! Query engine over NGINX combined-format access logs.
//!
//! A line is split into nine columns, a pipeline query
//! (`filter | group | show | sort | limit`) is evaluated over the records,
//! and the result is rendered as a bordered text table.  All text is held as
//! bytes: log data is never assumed to be valid UTF-8.
//!
//! * `text`: byte strings: searching, ordering, decimal numbers.
//! * `dates`, `pattern`: dates and regular expressions, which are chrono's
//!   and the regex crate's.
//! * `nginx`: the tokenizer, the record with its lazily decoded values, and
//!   the schema of an access log.
//! * `table`: column definitions and what a column holds in a record.
//! * `parser`: the query as a tree, and the projection it is evaluated with.
//! * `grammar`: the text of a query.
//! * `validate`: the check of a query against the schema.
//! * `filter`, `reduce`, `format`, `order`: comparisons, reducers and group
//!   keys, the table, the order of the groups.
//! * `query`: the evaluator, fed one record at a time.
//! * `run`: a whole run over the lines of a log.
use vstd::prelude::*;

pub mod text;
pub mod dates;
pub mod pattern;
pub mod nginx;
pub mod table;
pub mod parser;
pub mod grammar;
pub mod reduce;
pub mod format;
pub mod order;
pub mod filter;
pub mod validate;
pub mod query;
pub mod run;

verus! {

} // verus!
