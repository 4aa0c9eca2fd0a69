//! A query as a command word with named arguments.

use vstd::prelude::*;

use std::collections::HashMap;

verus! {

/// A query: a command word and its named arguments.
pub struct Query {
    command: String,
    arguments: HashMap<String, String>,
}

} // verus!
