use snapshot_resolver::keys::{classify_key, customer_managed_keys, is_provider_alias, AliasRecord, Key, KeyKind};
use snapshot_resolver::ResolveError;

fn alias(name: &str, target: &str) -> AliasRecord {
    AliasRecord { name: Some(name.to_string()), target_key_id: Some(target.to_string()) }
}

fn ids(v: &[&str]) -> Vec<Option<String>> {
    v.iter().map(|s| Some(s.to_string())).collect()
}

#[test]
fn provider_key_is_left_out() {
    let out = customer_managed_keys(ids(&["k1"]), vec![alias("alias/aws/rds", "k1")]).unwrap();
    assert!(out.is_empty());
}

#[test]
fn customer_keys_keep_order_and_alias() {
    let out = customer_managed_keys(ids(&["k1", "k2"]), vec![alias("alias/my-key", "k1")]).unwrap();
    assert_eq!(
        out,
        vec![
            Key { id: "k1".to_string(), alias: Some("alias/my-key".to_string()) },
            Key { id: "k2".to_string(), alias: None },
        ]
    );
}

#[test]
fn last_alias_of_a_key_wins() {
    let out = customer_managed_keys(
        ids(&["k1"]),
        vec![alias("alias/first", "k1"), alias("alias/second", "k1")],
    )
    .unwrap();
    assert_eq!(out, vec![Key { id: "k1".to_string(), alias: Some("alias/second".to_string()) }]);
}

#[test]
fn alias_without_target_matches_no_key() {
    let aliases = vec![
        AliasRecord { name: Some("alias/aws/ebs".to_string()), target_key_id: None },
        alias("alias/aws/s3", ""),
    ];
    let out = customer_managed_keys(ids(&["k1"]), aliases).unwrap();
    assert_eq!(out, vec![Key { id: "k1".to_string(), alias: None }]);
}

#[test]
fn mixed_keys_are_classified() {
    let out = customer_managed_keys(
        ids(&["a", "b", "c", "d"]),
        vec![alias("alias/aws/rds", "b"), alias("alias/team", "c"), alias("alias/other", "x")],
    )
    .unwrap();
    let got: Vec<&str> = out.iter().map(|k| k.id.as_str()).collect();
    assert_eq!(got, vec!["a", "c", "d"]);
    assert_eq!(out[1].alias, Some("alias/team".to_string()));
}

#[test]
fn key_without_id_is_malformed() {
    let r = customer_managed_keys(vec![Some("k1".to_string()), None], vec![]);
    assert_eq!(r, Err(ResolveError::MalformedRecord));
}

#[test]
fn alias_without_name_is_malformed() {
    let r = customer_managed_keys(
        ids(&["k1"]),
        vec![AliasRecord { name: None, target_key_id: Some("k1".to_string()) }],
    );
    assert_eq!(r, Err(ResolveError::MalformedRecord));
}

#[test]
fn empty_key_list_gives_empty_output() {
    let out = customer_managed_keys(vec![], vec![alias("alias/x", "k1")]).unwrap();
    assert!(out.is_empty());
}

#[test]
fn reserved_prefix_is_recognised() {
    assert!(is_provider_alias(&"alias/aws/rds".to_string()));
    assert!(is_provider_alias(&"alias/aws".to_string()));
    assert!(is_provider_alias(&"alias/awsome".to_string()));
    assert!(!is_provider_alias(&"alias/aw".to_string()));
    assert!(!is_provider_alias(&"alias/my-key".to_string()));
    assert!(!is_provider_alias(&"".to_string()));
}

#[test]
fn classify_key_reports_kind_and_alias() {
    let aliases = vec![alias("alias/aws/rds", "k1"), alias("alias/mine", "k2")];
    assert_eq!(
        classify_key(&aliases, &"k1".to_string()),
        (KeyKind::ProviderManaged, Some("alias/aws/rds".to_string()))
    );
    assert_eq!(
        classify_key(&aliases, &"k2".to_string()),
        (KeyKind::CustomerManaged, Some("alias/mine".to_string()))
    );
    assert_eq!(classify_key(&aliases, &"k3".to_string()), (KeyKind::CustomerManaged, None));
}
