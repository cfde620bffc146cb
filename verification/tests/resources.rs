use flotilla_core::resources::{
    initial_records, resource_get_response, resource_list_response, resource_read_envelope, resource_record, resource_record_matches_name,
    resource_watch_record, subscribe_queries, watch_event_description, watch_opening, watch_plan, watch_step, Collection, Json, KindNames,
    ObjectReading, RecordProvenance, ResourceCursor, ResourceRecordType, SubscribedQuery, WatchEnd, WatchInput, WatchPlan, WatchRefusal,
    WatchStep,
};

fn text(value: &str) -> Json {
    Json::Text(value.to_string())
}

fn object(members: Vec<(&str, Json)>) -> Json {
    Json::Object(members.into_iter().map(|(key, value)| (key.to_string(), value)).collect())
}

fn convoy(name: &str, version: &str) -> Json {
    object(vec![("metadata", object(vec![("name", text(name)), ("resourceVersion", text(version))]))])
}

fn replica(name: &str) -> Json {
    object(vec![(
        "metadata",
        object(vec![
            ("name", text(name)),
            (
                "annotations",
                object(vec![
                    ("flotilla.work/origin-root", text("root")),
                    ("flotilla.work/last-synced-at", text("2026-08-15T12:00:00Z")),
                ]),
            ),
        ]),
    )])
}

fn event(word: &str, object_value: Json) -> Json {
    object(vec![("type", text(word)), ("object", object_value)])
}

fn collection() -> Collection {
    Collection {
        kind: "Convoy".to_string(),
        plural: "convoys".to_string(),
        namespace: "flotilla".to_string(),
        resource_version: "7".to_string(),
        generation: Some("g1".to_string()),
    }
}

fn names() -> KindNames {
    KindNames { kind: "Convoy".to_string(), plural: "convoys".to_string(), namespace: "flotilla".to_string() }
}

#[test]
fn records_say_where_they_are_from() {
    let local = resource_record(ResourceRecordType::Current, convoy("one", "1"), "node-1");
    assert_eq!(local.provenance, RecordProvenance::Local { node_id: "node-1".to_string() });
    let remote = resource_record(ResourceRecordType::Current, replica("one"), "node-1");
    assert_eq!(
        remote.provenance,
        RecordProvenance::Replica { origin_root: "root".to_string(), last_synced_at: "2026-08-15T12:00:00Z".to_string() }
    );
}

#[test]
fn watch_events_become_records() {
    let added = resource_watch_record(event("ADDED", convoy("one", "1")), "node-1").expect("a record").expect("a record");
    assert_eq!(added.record_type, ResourceRecordType::Added);
    assert!(resource_record_matches_name(&added, &Some("one".to_string())));
    assert!(!resource_record_matches_name(&added, &Some("two".to_string())));
    assert!(resource_record_matches_name(&added, &None));
    let deleted = resource_watch_record(event("DELETED", convoy("one", "1")), "node-1").expect("a record").expect("a record");
    assert_eq!(deleted.record_type, ResourceRecordType::Deleted);
    assert_eq!(resource_watch_record(event("BOOKMARK", Json::Null), "node-1"), Ok(None));
    assert_eq!(resource_watch_record(object(vec![]), "node-1"), Err("resource watch event is missing type".to_string()));
    assert_eq!(
        resource_watch_record(event("MOVED", Json::Null), "node-1"),
        Err("unknown resource watch event type 'MOVED'".to_string())
    );
    assert_eq!(
        resource_watch_record(object(vec![("type", text("MODIFIED"))]), "node-1"),
        Err("resource watch event is missing object".to_string())
    );
}

#[test]
fn an_envelope_holds_the_collection_and_its_records() {
    let envelope = resource_read_envelope(
        &collection(),
        "9",
        vec![resource_record(ResourceRecordType::Modified, convoy("one", "9"), "node-1")],
    );
    assert_eq!(envelope.api_version, "flotilla.work/v1");
    assert_eq!(envelope.cursor, ResourceCursor { resource_version: "9".to_string(), generation: Some("g1".to_string()) });
    assert_eq!(watch_event_description(&envelope), "Modified Convoy");
    assert_eq!(watch_event_description(&resource_read_envelope(&collection(), "9", vec![])), "CURRENT Convoy");
}

#[test]
fn a_watch_resumes_from_a_cursor() {
    let cursor = |generation: Option<&str>| {
        Some(Ok(ResourceCursor { resource_version: "7".to_string(), generation: generation.map(str::to_string) }))
    };
    assert_eq!(watch_plan(false, false, &None), Ok(WatchPlan::Plain));
    assert_eq!(watch_plan(true, false, &None), Ok(WatchPlan::ReplicaSources));
    assert_eq!(watch_plan(false, true, &None), Ok(WatchPlan::WithReplicas));
    assert_eq!(watch_plan(false, false, &cursor(None)), Ok(WatchPlan::FromVersion { resource_version: "7".to_string() }));
    assert_eq!(
        watch_plan(false, false, &cursor(Some("g1"))),
        Ok(WatchPlan::FromVersionInGeneration { generation: "g1".to_string(), resource_version: "7".to_string() })
    );
    assert_eq!(
        watch_plan(true, false, &cursor(None)),
        Err(WatchRefusal::Invalid("replica-source watches do not support cursor resume".to_string()))
    );
    assert_eq!(
        watch_plan(false, true, &cursor(None)),
        Err(WatchRefusal::Invalid("include-replicas watches do not support cursor resume".to_string()))
    );
    assert_eq!(watch_plan(false, false, &Some(Err("bad".to_string()))), Err(WatchRefusal::Cursor("bad".to_string())));
}

#[test]
fn a_watch_opens_with_the_records_it_starts_from() {
    let events = || vec![event("ADDED", convoy("one", "1")), event("BOOKMARK", Json::Null), event("ADDED", convoy("two", "2"))];
    let records = initial_records(events(), &Some("two".to_string()), "node-1").expect("records");
    assert_eq!(records.len(), 1);
    let opening = watch_opening(&collection(), events(), false, false, &None, "node-1").expect("an opening");
    assert_eq!(opening.len(), 2);
    assert_eq!(opening[0].records.len(), 2);
    assert_eq!(opening[1].records[0].record_type, ResourceRecordType::Bookmark);
    assert_eq!(watch_opening(&collection(), events(), true, false, &None, "node-1").expect("an opening").len(), 1);
    assert_eq!(watch_opening(&collection(), events(), false, true, &None, "node-1"), Err(WatchEnd::Cancelled));
    let broken = watch_opening(&collection(), vec![object(vec![])], false, false, &None, "node-1");
    assert_eq!(broken, Err(WatchEnd::Failed("resource watch event is missing type".to_string())));
}

#[test]
fn a_watch_goes_on_until_it_ends() {
    match watch_step(WatchInput::Event(event("MODIFIED", convoy("one", "8"))), &collection(), &None, "node-1") {
        WatchStep::Send(envelope) => assert_eq!(envelope.cursor.resource_version, "8"),
        other => panic!("{other:?}"),
    }
    let elsewhere = Some("two".to_string());
    assert_eq!(
        watch_step(WatchInput::Event(event("MODIFIED", convoy("one", "8"))), &collection(), &elsewhere, "node-1"),
        WatchStep::Skip
    );
    assert_eq!(watch_step(WatchInput::Cancelled, &collection(), &None, "node-1"), WatchStep::Finish(WatchEnd::Cancelled));
    assert_eq!(watch_step(WatchInput::Closed, &collection(), &None, "node-1"), WatchStep::Finish(WatchEnd::Closed));
    assert_eq!(
        watch_step(WatchInput::Failed("lost".to_string()), &collection(), &None, "node-1"),
        WatchStep::Finish(WatchEnd::Failed("lost".to_string()))
    );
}

#[test]
fn a_list_holds_every_item() {
    let list = object(vec![
        ("metadata", object(vec![("resourceVersion", text("12")), ("generation", text("g2"))])),
        ("items", Json::List(vec![convoy("one", "1"), replica("two")])),
    ]);
    let envelope = resource_list_response(names(), list, "node-1");
    assert_eq!(envelope.cursor, ResourceCursor { resource_version: "12".to_string(), generation: Some("g2".to_string()) });
    assert_eq!(envelope.records.len(), 2);
    assert_eq!(envelope.records[0].record_type, ResourceRecordType::Current);
    assert_eq!(resource_list_response(names(), Json::Null, "node-1").cursor.resource_version, "");
}

#[test]
fn one_object_is_read_or_refused() {
    let found = ObjectReading::Found { names: names(), object: convoy("one", "1") };
    let envelope = resource_get_response("Convoy", "flotilla", "one", Ok(object(vec![])), found, "node-1").expect("an envelope");
    assert_eq!(envelope.records.len(), 1);
    assert_eq!(
        resource_get_response("Convoy", "flotilla", "one", Ok(object(vec![])), ObjectReading::Absent, "node-1"),
        Err("resource Convoy/flotilla/one not found".to_string())
    );
    assert_eq!(
        resource_get_response("Convoy", "flotilla", "one", Err("down".to_string()), ObjectReading::Absent, "node-1"),
        Err("down".to_string())
    );
    assert_eq!(
        resource_get_response(
            "Convoy",
            "flotilla",
            "one",
            Ok(object(vec![])),
            ObjectReading::Unreadable { error: "bad".to_string() },
            "node-1"
        ),
        Err("bad".to_string())
    );
}

#[test]
fn members_are_found_by_key() {
    let value = object(vec![("a", text("1")), ("b", Json::Bool(true))]);
    assert_eq!(value.get("b"), Some(&Json::Bool(true)));
    assert_eq!(value.get("c"), None);
    assert_eq!(value.into_member("a"), Some(text("1")));
    assert_eq!(Json::Null.into_member("a"), None);
}

#[test]
fn subscribers_are_sent_what_they_lack() {
    let query = |name: &str, since: Option<u64>, newly_materialized: bool, seq: Option<u64>| SubscribedQuery {
        query: name.to_string(),
        since,
        newly_materialized,
        seq,
    };
    assert_eq!(
        subscribe_queries(&vec![query("a", Some(3), false, Some(3)), query("b", Some(2), false, Some(3)), query("c", Some(3), true, Some(3))]),
        Ok(vec![1, 2])
    );
    assert_eq!(subscribe_queries(&vec![query("a", None, false, None)]), Err("query is not materialized: a".to_string()));
}
