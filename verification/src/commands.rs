use vstd::prelude::*;
use crate::chars::starts_with;
use crate::output::OutputFormat;
use crate::pattern::{extension_of, path_extension};
use crate::text::{chars_of, str_eq, string_from_chars};

verus! {

/// A command of the command-line tool, with its arguments.
#[derive(Debug)]
pub enum Command {
    /// Scans a directory and prints or stores its lineage graph.
    Scan { path: String, format: OutputFormat, out: Option<String> },
    /// Lists what a change of a table affects downstream.
    Impact { table: String, path: String, format: OutputFormat, out: Option<String> },
    /// Shows the upstream and downstream neighbourhood of a table.
    Show { table: String, upstream: usize, downstream: usize, path: String, format: OutputFormat, out: Option<String> },
    /// Prints graph statistics, optionally filtered by column name.
    Stats { path: String, where_clause: Option<String> },
    /// Traces the column-level lineage of a table.
    Trace { table: String, path: String, compiled: Option<String> },
    /// Compares a stored snapshot with the current scan.
    Diff { base: String, path: String },
    /// Checks the graph against a rules file.
    Check { path: String, rules: String },
    /// Merges stored snapshots into one.
    Merge { files: Vec<String>, out: String },
}

/// The parsed command line.
#[derive(Debug)]
pub struct Cli {
    pub command: Command,
}

/// The column named by a `--where` clause: what follows `column=` or, failing
/// that, `column:`.
pub open spec fn where_column(w: Seq<char>) -> Option<Seq<char>> {
    if starts_with(w, "column="@) {
        Some(w.subrange(7, w.len() as int))
    } else if starts_with(w, "column:"@) {
        Some(w.subrange(7, w.len() as int))
    } else {
        None
    }
}

/// The column filter of a `--where` clause (`column=email` or `column:email`).
pub fn column_filter(where_clause: Option<&str>) -> (r: Option<String>)
    ensures
        match where_clause {
            None => r is None,
            Some(w) => match r {
                Some(c) => where_column(w@) == Some(c@),
                None => where_column(w@) is None,
            },
        },
{
    match where_clause {
        None => None,
        Some(w) => {
            let cs = chars_of(w);
            let eq = crate::chars::chars_start_with(&cs, "column=");
            let colon = crate::chars::chars_start_with(&cs, "column:");
            proof {
                reveal_strlit("column=");
                reveal_strlit("column:");
            }
            if eq || colon {
                let rest = crate::chars::slice_chars(&cs, 7, cs.len());
                Some(string_from_chars(rest.as_slice()))
            } else {
                None
            }
        },
    }
}

/// A path at which the graph is stored as an SQLite snapshot rather than printed:
/// one with extension `db`, `sqlite` or `sqlite3`.
pub open spec fn is_snapshot_path(path: Seq<char>) -> bool {
    path_extension(path) == Some("db"@) || path_extension(path) == Some("sqlite"@)
        || path_extension(path) == Some("sqlite3"@)
}

/// Whether output to `path` is stored as an SQLite snapshot.
pub fn snapshot_output(path: &str) -> (r: bool)
    ensures
        r == is_snapshot_path(path@),
{
    match extension_of(path) {
        Some(e) => str_eq(e.as_str(), "db") || str_eq(e.as_str(), "sqlite") || str_eq(e.as_str(), "sqlite3"),
        None => false,
    }
}

} // verus!
