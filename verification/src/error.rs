use vstd::prelude::*;

verus! {

/// The errors of the library.
#[derive(Debug)]
pub enum LineageError {
    /// An I/O failure, with its description.
    Io(String),
    /// A SQL file that could not be parsed.
    SqlParse { file: String, message: String },
    /// A failure of the snapshot storage, with its description.
    Storage(String),
    /// No node has the given identifier.
    NodeNotFound(String),
    /// A node with the given identifier exists already.
    DuplicateNode(String),
}

} // verus!
