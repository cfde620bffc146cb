//! What holds of every resource that is read and of every watch.
use vstd::prelude::*;

use crate::resources::{
    answers_input, event_record, event_wanted, member, member_at, object_read, opening, planned_watch, provenance_of, record_name,
    results_to_send, text_of, wanted_events, Collection, Json, ObjectReading, RecordProvenance, ResourceCursor, ResourceReadEnvelope,
    ResourceReadRecord, SubscribedQuery, WatchEnd, WatchInput, WatchPlan, WatchRefusal, WatchStep,
};

verus! {

/// A member of an object is its first of that name.
pub proof fn law_the_first_member_of_a_name_counts(members: Vec<(String, Json)>, key: Seq<char>, i: int)
    requires
        0 <= i < members@.len(),
        members@[i].0@ == key,
        forall|j: int| 0 <= j < i ==> (#[trigger] members@[j]).0@ != key,
    ensures
        member(Json::Object(members), key) == Some(members@[i].1),
{
    lemma_member_at(members@, key, i);
}

proof fn lemma_member_at(members: Seq<(String, Json)>, key: Seq<char>, i: int)
    requires
        0 <= i <= members.len(),
        i < members.len() ==> members[i].0@ == key,
        forall|j: int| 0 <= j < i ==> (#[trigger] members[j]).0@ != key,
    ensures
        member_at(members, key) == i,
    decreases members.len(),
{
    if i > 0 {
        let rest = members.drop_first();
        assert(members[0].0@ != key);
        assert forall|j: int| 0 <= j < i - 1 implies (#[trigger] rest[j]).0@ != key by {
            assert(rest[j] == members[j + 1]);
        }
        if i < members.len() {
            assert(rest[i - 1] == members[i]);
        }
        lemma_member_at(rest, key, i - 1);
    }
}

/// What has no member of a name has none: neither an object without it nor
/// anything that is no object.
pub proof fn law_missing_members_are_missing(value: Json, key: Seq<char>)
    ensures
        !(value is Object) ==> member(value, key) is None,
        value matches Json::Object(members) ==> ((forall|j: int| 0 <= j < members@.len() ==> (#[trigger] members@[j]).0@ != key)
            ==> member(value, key) is None),
{
    if value is Object {
        let members = value->Object_0@;
        if forall|j: int| 0 <= j < members.len() ==> (#[trigger] members[j]).0@ != key {
            lemma_member_at(members, key, members.len() as int);
        }
    }
}

/// A record was copied from elsewhere where it says from where and when, both
/// of it; otherwise it is from here.
pub proof fn law_copied_records_say_from_where(p: RecordProvenance, object: Json, node: Seq<char>)
    requires
        provenance_of(p, object, node),
    ensures
        p matches RecordProvenance::Local { node_id } ==> node_id@ == node,
        p matches RecordProvenance::Replica { origin_root, last_synced_at } ==> ({
            let annotations = member(member(object, "metadata"@)->0, "annotations"@)->0;
            &&& text_of(member(annotations, "flotilla.work/origin-root"@)) == Some(origin_root@)
            &&& text_of(member(annotations, "flotilla.work/last-synced-at"@)) == Some(last_synced_at@)
        }),
{
}

/// An event is read as what it says it is, and nothing else is made of it: a
/// bookmark carries no record, and an event of no known type, or without an
/// object, cannot be read.
pub proof fn law_events_are_read_as_what_they_say(event: Json, node: Seq<char>, r: Result<Option<ResourceReadRecord>, String>)
    requires
        event_record(event, node, r),
    ensures
        ({
            let word = text_of(member(event, "type"@));
            let object = member(event, "object"@);
            &&& word == Some("BOOKMARK"@) ==> (r matches Ok(None))
            &&& (word == Some("ADDED"@) && object is Some ==> (r matches Ok(Some(record)) && record.record_type is Added && record.object
                == object))
            &&& (word == Some("MODIFIED"@) && object is Some ==> (r matches Ok(Some(record)) && record.record_type is Modified
                && record.object == object))
            &&& (word == Some("DELETED"@) && object is Some ==> (r matches Ok(Some(record)) && record.record_type is Deleted
                && record.object == object))
            &&& word is None ==> r is Err
            &&& word != Some("BOOKMARK"@) && object is None ==> r is Err
            &&& word != Some("BOOKMARK"@) && word != Some("ADDED"@) && word != Some("MODIFIED"@) && word != Some("DELETED"@) ==> r is Err
        }),
{
    reveal_strlit("ADDED");
    reveal_strlit("MODIFIED");
    reveal_strlit("DELETED");
    reveal_strlit("BOOKMARK");
    assert("ADDED"@.len() == 5 && "MODIFIED"@.len() == 8 && "DELETED"@.len() == 7 && "BOOKMARK"@.len() == 8);
    assert("MODIFIED"@[0] == 'M' && "BOOKMARK"@[0] == 'B');
}

/// A watch goes on from where it was left, in its generation where that is
/// known; a watch over copies cannot be gone on with.
pub proof fn law_watches_go_on_from_where_they_were_left(
    replica_sources: bool,
    with_replicas: bool,
    position: Option<Result<ResourceCursor, String>>,
    r: Result<WatchPlan, WatchRefusal>,
)
    requires
        planned_watch(replica_sources, with_replicas, position, r),
    ensures
        (position matches Some(Err(_))) ==> (r matches Err(WatchRefusal::Cursor(_))),
        (position matches Some(Ok(_))) && (replica_sources || with_replicas) ==> (r matches Err(WatchRefusal::Invalid(_))),
        position matches Some(Ok(cursor)) ==> (!replica_sources && !with_replicas ==> (match cursor.generation {
            Some(generation) => r matches Ok(WatchPlan::FromVersionInGeneration { generation: g, resource_version }) && g@ == generation@
                && resource_version@ == cursor.resource_version@,
            None => r matches Ok(WatchPlan::FromVersion { resource_version }) && resource_version@ == cursor.resource_version@,
        })),
        position is None && replica_sources ==> (r matches Ok(WatchPlan::ReplicaSources)),
        position is None && !replica_sources && with_replicas ==> (r matches Ok(WatchPlan::WithReplicas)),
        position is None && !replica_sources && !with_replicas ==> (r matches Ok(WatchPlan::Plain)),
{
}

proof fn lemma_wanted_sound(events: Seq<Json>, node: Seq<char>, name: Option<Seq<char>>, k: int) -> (i: int)
    requires
        0 <= k < wanted_events(events, node, name).len(),
    ensures
        0 <= i < events.len(),
        events[i] == wanted_events(events, node, name)[k],
        event_wanted(events[i], node, name),
    decreases events.len(),
{
    let front = events.drop_last();
    let before = wanted_events(front, node, name);
    if k < before.len() {
        let i = lemma_wanted_sound(front, node, name, k);
        assert(front[i] == events[i]);
        i
    } else {
        events.len() - 1
    }
}

proof fn lemma_wanted_whole(events: Seq<Json>, node: Seq<char>, name: Option<Seq<char>>, i: int) -> (k: int)
    requires
        0 <= i < events.len(),
        event_wanted(events[i], node, name),
    ensures
        0 <= k < wanted_events(events, node, name).len(),
        wanted_events(events, node, name)[k] == events[i],
    decreases events.len(),
{
    let front = events.drop_last();
    let before = wanted_events(front, node, name);
    if i < front.len() {
        assert(front[i] == events[i]);
        lemma_wanted_whole(front, node, name, i)
    } else {
        before.len() as int
    }
}

/// The name that an object goes by.
pub open spec fn named_object(object: Json) -> Option<Seq<char>> {
    match member(object, "metadata"@) {
        Some(metadata) => text_of(member(metadata, "name"@)),
        None => None,
    }
}

/// A watch opens with all that is there of what is wanted, unless it goes on
/// from where it was left, and with a mark of where it stands.
pub proof fn law_watches_open_with_what_is_there(
    sent: Seq<ResourceReadEnvelope>,
    c: Collection,
    events: Seq<Json>,
    resuming: bool,
    name: Option<Seq<char>>,
    node: Seq<char>,
    k: int,
    i: int,
)
    requires
        opening(sent, c, events, resuming, name, node),
    ensures
        sent.len() == (if resuming {
            1int
        } else {
            2
        }),
        sent.last().records@.len() == 1 && sent.last().records@[0].record_type is Bookmark && sent.last().cursor.resource_version@
            == c.resource_version@ && sent.last().cursor.generation == c.generation,
        !resuming && 0 <= k < sent[0].records@.len() ==> (name matches Some(n) ==> (sent[0].records@[k].object matches Some(object)
            && named_object(object) == Some(n))),
        !resuming && 0 <= i < events.len() && event_wanted(events[i], node, name) ==> exists|e: int|
            0 <= e < sent[0].records@.len() && (#[trigger] sent[0].records@[e]).object == member(events[i], "object"@),
{
    if !resuming {
        let wanted = wanted_events(events, node, name);
        let records = sent[0].records@;
        if 0 <= k < records.len() {
            let s = lemma_wanted_sound(events, node, name, k);
            assert(event_record(wanted[k], node, Ok(Some(records[k]))));
            let other = choose|r: ResourceReadRecord| #[trigger]
                event_record(events[s], node, Ok(Some(r))) && crate::resources::name_matches(r, name);
            assert(other.object == records[k].object);
            assert(record_name(other) == record_name(records[k]));
        }
        if 0 <= i < events.len() && event_wanted(events[i], node, name) {
            let e = lemma_wanted_whole(events, node, name, i);
            assert(event_record(wanted[e], node, Ok(Some(records[e]))));
        }
    }
}

/// A watch ends with what ended it; an event is passed on alone, with the
/// version of its object, where it is of the name that is wanted, and is
/// dropped or fails the watch otherwise.
pub proof fn law_watches_pass_on_what_is_wanted(step: WatchStep, input: WatchInput, c: Collection, name: Option<Seq<char>>, node: Seq<char>)
    requires
        answers_input(step, input, c, name, node),
    ensures
        input is Cancelled ==> step == WatchStep::Finish(WatchEnd::Cancelled),
        input is Closed ==> step == WatchStep::Finish(WatchEnd::Closed),
        input matches WatchInput::Failed(e) ==> step == WatchStep::Finish(WatchEnd::Failed(e)),
        (step matches WatchStep::Send(envelope)) ==> (input matches WatchInput::Event(event) && ({
            let envelope = step->Send_0;
            &&& envelope.records@.len() == 1
            &&& envelope.records@[0].object == member(event, "object"@)
            &&& envelope.resource_kind == c.kind && envelope.plural == c.plural && envelope.namespace == c.namespace
            &&& (name matches Some(n) ==> (member(event, "object"@) matches Some(object) && named_object(object) == Some(n)))
            &&& (member(event, "object"@) matches Some(object) ==> (member(object, "metadata"@) matches Some(metadata) ==> (text_of(
                member(metadata, "resourceVersion"@),
            ) matches Some(version) ==> envelope.cursor.resource_version@ == version)))
        })),
{
}

/// Reading one resource gives that resource, as it stands, or says that it is
/// not there.
pub proof fn law_resources_are_read_as_they_stand(
    r: Result<ResourceReadEnvelope, String>,
    kind: Seq<char>,
    namespace: Seq<char>,
    name: Seq<char>,
    collection: Result<Json, String>,
    reading: ObjectReading,
    node: Seq<char>,
)
    requires
        object_read(r, kind, namespace, name, collection, reading, node),
    ensures
        r is Ok <==> collection is Ok && reading is Found,
        r matches Ok(e) ==> e.records@.len() == 1 && e.records@[0].record_type is Current && e.records@[0].object == Some(
            reading->object,
        ) && e.resource_kind == reading->names.kind && e.namespace == reading->names.namespace && e.plural == reading->names.plural,
{
}

/// A subscriber is sent the results that are new or that it is not up to date
/// with, and no others; nothing is sent where one of the queries has none.
pub proof fn law_subscribers_are_brought_up_to_date(queries: Seq<SubscribedQuery>, i: int)
    ensures
        results_to_send(queries) is Err <==> exists|k: int| 0 <= k < queries.len() && (#[trigger] queries[k]).seq is None,
        results_to_send(queries) matches Ok(list) ==> (forall|k: int| 0 <= k < list.len() ==> 0 <= #[trigger] list[k] < queries.len() && (
        queries[list[k]].newly_materialized || queries[list[k]].since != queries[list[k]].seq)) && (0 <= i < queries.len() && (
        queries[i].newly_materialized || queries[i].since != queries[i].seq) ==> list.contains(i)),
    decreases queries.len(),
{
    if queries.len() > 0 {
        let front = queries.drop_last();
        law_subscribers_are_brought_up_to_date(front, i);
        let n = queries.len() - 1;
        assert(queries[n] == queries.last());
        if results_to_send(front) is Err {
            let k = choose|k: int| 0 <= k < front.len() && (#[trigger] front[k]).seq is None;
            assert(queries[k] == front[k]);
        } else {
            if exists|k: int| 0 <= k < queries.len() && (#[trigger] queries[k]).seq is None {
                let k = choose|k: int| 0 <= k < queries.len() && (#[trigger] queries[k]).seq is None;
                if k < n {
                    assert(front[k] == queries[k]);
                }
            }
            if results_to_send(queries) is Ok {
                let before = results_to_send(front)->Ok_0;
                let list = results_to_send(queries)->Ok_0;
                assert forall|k: int| 0 <= k < list.len() implies 0 <= #[trigger] list[k] < queries.len() && (
                queries[list[k]].newly_materialized || queries[list[k]].since != queries[list[k]].seq) by {
                    if k < before.len() {
                        assert(list[k] == before[k]);
                        assert(front[before[k]] == queries[before[k]]);
                    }
                }
                if 0 <= i < queries.len() && (queries[i].newly_materialized || queries[i].since != queries[i].seq) {
                    if i < n {
                        assert(front[i] == queries[i]);
                        let k = choose|k: int| 0 <= k < before.len() && before[k] == i;
                        assert(list[k] == i);
                    } else {
                        assert(list[before.len() as int] == i);
                    }
                }
            }
        }
    }
}

} // verus!
