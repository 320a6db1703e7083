//! Lists the snapshot retention policies of every filesystem.
use vstd::prelude::*;
use crate::query::Query;

verus! {

broadcast use vstd::string::to_string_from_display_ensures_for_str;

pub const QUERY: &'static str = r#"
        query SnapshotRetentionPolicies {
          snapshotRetentionPolicies {
            id
            filesystemName
            deleteNum
            deleteUnit
            lastRun
            keepNum
          }
        }
    "#;

/// The request, which takes no variables.
pub fn build() -> (r: Query<()>)
    ensures
        r.query@ == QUERY@,
        r.variables is None,
{
    Query { query: QUERY.to_string(), variables: None }
}

} // verus!
