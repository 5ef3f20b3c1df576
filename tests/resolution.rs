use snapshot_resolver::keys::Key;
use snapshot_resolver::resolution::{
    Action, DatabaseType, Event, Field, Request, Resolution, ResolvedParameters, Stage,
};
use snapshot_resolver::selection::{chosen_value, select_keys, select_rds, select_snapshot, Choice};
use snapshot_resolver::ResolveError;

fn s(x: &str) -> String {
    x.to_string()
}

fn request(db: Option<&str>, key: Option<&str>, snap: Option<&str>, t: DatabaseType) -> Request {
    Request {
        db_identifier: db.map(String::from),
        kms_key_id: key.map(String::from),
        db_type: t,
        snapshot_id: snap.map(String::from),
    }
}

#[test]
fn empty_resource_list_has_no_candidates() {
    assert_eq!(select_rds(vec![]), Err(ResolveError::NoCandidates));
    assert_eq!(select_snapshot(vec![]), Err(ResolveError::NoCandidates));
    assert_eq!(select_keys(vec![]), Err(ResolveError::NoCandidates));
}

#[test]
fn resources_are_offered_by_id() {
    let c = select_rds(vec![s("db1"), s("db2")]).unwrap();
    assert_eq!(
        c,
        vec![Choice { label: s("db1"), value: s("db1") }, Choice { label: s("db2"), value: s("db2") }]
    );
}

#[test]
fn keys_are_offered_by_alias_or_id() {
    let c = select_keys(vec![
        Key { id: s("k1"), alias: Some(s("alias/mine")) },
        Key { id: s("k2"), alias: None },
        Key { id: s("k3"), alias: Some(s("alias/mine")) },
    ])
    .unwrap();
    assert_eq!(
        c,
        vec![
            Choice { label: s("alias/mine"), value: s("k3") },
            Choice { label: s("k2"), value: s("k2") },
        ]
    );
    assert_eq!(chosen_value(&c, &s("alias/mine")), Some(s("k3")));
    assert_eq!(chosen_value(&c, &s("k2")), Some(s("k2")));
    assert_eq!(chosen_value(&c, &s("k1")), None);
}

#[test]
fn database_type_words() {
    assert_eq!(DatabaseType::Cluster.to_string(), "cluster");
    assert_eq!(DatabaseType::Database.to_string(), "database");
}

fn interactive_run() -> ResolvedParameters {
    let mut r = Resolution::new(request(None, None, None, DatabaseType::Database));
    assert_eq!(r.stage(), Stage::Resource);
    assert_eq!(r.next_action(), Action::ListInstances);
    r.handle(Event::Listed(vec![s("db1"), s("db2")])).unwrap();
    assert_eq!(r.next_action(), Action::Choose(Field::Resource, vec![s("db1"), s("db2")]));
    r.handle(Event::Chosen(s("db2"))).unwrap();
    assert_eq!(r.next_action(), Action::ListKeys);
    r.handle(Event::KeysListed(vec![
        Key { id: s("k1"), alias: Some(s("alias/my-key")) },
        Key { id: s("k2"), alias: None },
    ]))
    .unwrap();
    assert_eq!(r.next_action(), Action::Choose(Field::Key, vec![s("alias/my-key"), s("k2")]));
    r.handle(Event::Chosen(s("alias/my-key"))).unwrap();
    assert_eq!(r.next_action(), Action::ConfirmReuse);
    r.handle(Event::Confirmed(true)).unwrap();
    assert_eq!(r.next_action(), Action::ListSnapshots(s("db2")));
    r.handle(Event::Listed(vec![s("snap-1|2023-01-02 03:04:05")])).unwrap();
    assert_eq!(
        r.next_action(),
        Action::Choose(Field::Snapshot, vec![s("snap-1|2023-01-02 03:04:05")])
    );
    r.handle(Event::Chosen(s("snap-1|2023-01-02 03:04:05"))).unwrap();
    assert_eq!(r.stage(), Stage::Done);
    match r.next_action() {
        Action::Finish(p) => p,
        other => panic!("unexpected action {:?}", other),
    }
}

#[test]
fn interactive_resolution_runs_through_every_stage() {
    let p = interactive_run();
    assert_eq!(
        p,
        ResolvedParameters {
            resource_id: s("db2"),
            key_id: s("k1"),
            reuse_existing: true,
            snapshot: s("snap-1|2023-01-02 03:04:05"),
        }
    );
}

#[test]
fn same_responses_and_answers_give_same_parameters() {
    assert_eq!(interactive_run(), interactive_run());
}

#[test]
fn explicit_values_skip_listing_and_choice() {
    let mut r = Resolution::new(request(Some("db9"), Some("key9"), Some("snap9"), DatabaseType::Cluster));
    assert_eq!(r.next_action(), Action::ConfirmReuse);
    r.handle(Event::Confirmed(false)).unwrap();
    assert_eq!(
        r.next_action(),
        Action::Finish(ResolvedParameters {
            resource_id: s("db9"),
            key_id: s("key9"),
            reuse_existing: false,
            snapshot: s("snap9"),
        })
    );
}

#[test]
fn cluster_resolution_lists_clusters() {
    let r = Resolution::new(request(None, Some("k"), Some("s"), DatabaseType::Cluster));
    assert_eq!(r.next_action(), Action::ListClusters);
}

#[test]
fn empty_snapshot_list_fails_without_a_prompt() {
    let mut r = Resolution::new(request(Some("c1"), Some("k1"), None, DatabaseType::Cluster));
    r.handle(Event::Confirmed(false)).unwrap();
    assert_eq!(r.next_action(), Action::ListSnapshots(s("c1")));
    assert_eq!(r.handle(Event::Listed(vec![])), Err(ResolveError::NoCandidates));
    assert_eq!(r.next_action(), Action::ListSnapshots(s("c1")));
}

#[test]
fn unknown_answer_is_refused() {
    let mut r = Resolution::new(request(None, None, None, DatabaseType::Database));
    r.handle(Event::Listed(vec![s("db1")])).unwrap();
    assert_eq!(r.handle(Event::Chosen(s("nope"))), Err(ResolveError::UnknownChoice));
    assert_eq!(r.next_action(), Action::Choose(Field::Resource, vec![s("db1")]));
}

#[test]
fn event_out_of_stage_is_refused() {
    let mut r = Resolution::new(request(None, None, None, DatabaseType::Database));
    assert_eq!(r.handle(Event::Confirmed(true)), Err(ResolveError::UnexpectedEvent));
    assert_eq!(r.handle(Event::Chosen(s("db1"))), Err(ResolveError::UnexpectedEvent));
    assert_eq!(r.handle(Event::KeysListed(vec![])), Err(ResolveError::UnexpectedEvent));
    assert_eq!(r.next_action(), Action::ListInstances);
}
