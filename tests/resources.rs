use snapshot_resolver::resources::{
    cluster_ids, join_descriptor, snapshot_attributes, snapshot_descriptor, snapshot_descriptors,
    split_descriptor, standalone_instances, Attribute, AttributeRecord, InstanceRecord,
    SnapshotRecord,
};
use snapshot_resolver::ResolveError;

fn instance(id: Option<&str>, cluster: Option<&str>) -> InstanceRecord {
    InstanceRecord { instance_id: id.map(String::from), cluster_id: cluster.map(String::from) }
}

#[test]
fn cluster_members_are_left_out() {
    let out = standalone_instances(vec![
        instance(Some("db1"), None),
        instance(Some("member"), Some("c1")),
        instance(Some("db2"), None),
    ])
    .unwrap();
    assert_eq!(out, vec!["db1".to_string(), "db2".to_string()]);
}

#[test]
fn standalone_instance_without_id_is_malformed() {
    let r = standalone_instances(vec![instance(Some("db1"), None), instance(None, None)]);
    assert_eq!(r, Err(ResolveError::MalformedRecord));
}

#[test]
fn member_without_id_is_not_needed() {
    let out = standalone_instances(vec![instance(None, Some("c1")), instance(Some("db1"), None)]).unwrap();
    assert_eq!(out, vec!["db1".to_string()]);
}

#[test]
fn clusters_are_listed_as_given() {
    let out = cluster_ids(vec![Some("c1".to_string()), Some("c2".to_string())]).unwrap();
    assert_eq!(out, vec!["c1".to_string(), "c2".to_string()]);
    assert_eq!(cluster_ids(vec![None]), Err(ResolveError::MalformedRecord));
}

#[test]
fn descriptor_has_id_and_utc_time() {
    let d = snapshot_descriptor(&"snap-1".to_string(), 1672628645).unwrap();
    assert_eq!(d, "snap-1|2023-01-02 03:04:05");
}

#[test]
fn descriptor_splits_back_into_id_and_time() {
    let d = snapshot_descriptor(&"snap-1".to_string(), 1672628645).unwrap();
    let (id, time) = split_descriptor(&d).unwrap();
    assert_eq!(id, "snap-1");
    let parsed = chrono::NaiveDateTime::parse_from_str(&time, "%Y-%m-%d %H:%M:%S").unwrap();
    assert_eq!(parsed.and_utc().timestamp(), 1672628645);
}

#[test]
fn descriptor_of_epoch() {
    let d = snapshot_descriptor(&"s".to_string(), 0).unwrap();
    assert_eq!(d, "s|1970-01-01 00:00:00");
}

#[test]
fn time_out_of_range_gives_none() {
    assert_eq!(snapshot_descriptor(&"s".to_string(), i64::MAX), None);
}

#[test]
fn join_puts_separator_between() {
    assert_eq!(join_descriptor(&"a".to_string(), &"b c".to_string()), "a|b c");
}

#[test]
fn split_without_separator_gives_none() {
    assert_eq!(split_descriptor(&"snap-1".to_string()), None);
    assert_eq!(
        split_descriptor(&"a|b|c".to_string()),
        Some(("a".to_string(), "b|c".to_string()))
    );
}

#[test]
fn descriptors_of_snapshots() {
    let out = snapshot_descriptors(vec![
        SnapshotRecord { snapshot_id: Some("s1".to_string()), created_at: Some(0) },
        SnapshotRecord { snapshot_id: Some("s2".to_string()), created_at: Some(1672628645) },
    ])
    .unwrap();
    assert_eq!(out, vec!["s1|1970-01-01 00:00:00".to_string(), "s2|2023-01-02 03:04:05".to_string()]);
}

#[test]
fn snapshot_without_time_is_malformed() {
    let r = snapshot_descriptors(vec![SnapshotRecord { snapshot_id: Some("s1".to_string()), created_at: None }]);
    assert_eq!(r, Err(ResolveError::MalformedRecord));
    let r = snapshot_descriptors(vec![SnapshotRecord { snapshot_id: None, created_at: Some(0) }]);
    assert_eq!(r, Err(ResolveError::MalformedRecord));
    assert_eq!(snapshot_descriptors(vec![]), Ok(vec![]));
}

#[test]
fn attributes_keep_last_values_per_name() {
    let rec = |n: &str, v: &[&str]| AttributeRecord {
        name: Some(n.to_string()),
        values: Some(v.iter().map(|s| s.to_string()).collect()),
    };
    let out = snapshot_attributes(vec![rec("restore", &["111"]), rec("other", &[]), rec("restore", &["222", "333"])])
        .unwrap();
    assert_eq!(
        out,
        vec![
            Attribute { name: "restore".to_string(), values: vec!["222".to_string(), "333".to_string()] },
            Attribute { name: "other".to_string(), values: vec![] },
        ]
    );
}

#[test]
fn attribute_without_values_is_malformed() {
    let r = snapshot_attributes(vec![AttributeRecord { name: Some("restore".to_string()), values: None }]);
    assert_eq!(r, Err(ResolveError::MalformedRecord));
}
