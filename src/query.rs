//! GraphQL request bodies.
use vstd::prelude::*;

verus! {

/// A GraphQL request: the query text and its variables, if any.
#[derive(Debug, PartialEq, Eq)]
pub struct Query<T> {
    pub query: String,
    pub variables: Option<T>,
}

} // verus!
