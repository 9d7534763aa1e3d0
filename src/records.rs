//! Plain records shared with callers.

use vstd::prelude::*;

verus! {

/// Where and why a JSON text failed to parse.
#[derive(Clone, Debug)]
pub struct JsonError {
    pub message: String,
    pub line: usize,
    pub column: usize,
}

/// A book as stored in a catalogue.
#[derive(Clone, Debug)]
pub struct Book {
    pub id: i32,
    pub title: String,
    pub author: String,
}

} // verus!
