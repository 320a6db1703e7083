//! Lists the snapshot intervals of every filesystem.
use vstd::prelude::*;
use crate::query::Query;

verus! {

broadcast use vstd::string::to_string_from_display_ensures_for_str;

pub const QUERY: &'static str = r#"
        query SnapshotIntervals {
          snapshotIntervals {
            id
            filesystemName
            useBarrier
            interval
            lastRun
          }
        }
    "#;

/// The request, which takes no variables.
pub fn build() -> (r: Query<()>)
    ensures
        r.query@ == QUERY@,
        r.variables is None,
{
    Query { query: QUERY.to_string(), variables: None }
}

} // verus!
