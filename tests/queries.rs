use iml_device::snapshot::{list_intervals, list_retentions};

#[test]
fn list_intervals_query() {
    let q = list_intervals::build();
    assert_eq!(q.query, list_intervals::QUERY);
    assert!(q.query.contains("snapshotIntervals"));
    assert_eq!(q.variables, None);
}

#[test]
fn list_retentions_query() {
    let q = list_retentions::build();
    assert_eq!(q.query, list_retentions::QUERY);
    assert!(q.query.contains("snapshotRetentionPolicies"));
    assert_eq!(q.variables, None);
}
