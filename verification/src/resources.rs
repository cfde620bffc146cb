//! Reading and watching resource records.
use vstd::prelude::*;

use crate::text::{concat2, concat3, concat7, opt, opt_clone, str_eq};

verus! {

/// A JSON value. The members of an object have distinct names.
#[derive(Debug, PartialEq, Eq)]
pub enum Json {
    Null,
    Bool(bool),
    Number(String),
    Text(String),
    List(Vec<Json>),
    Object(Vec<(String, Json)>),
}

/// Where a member stands, or the number of members.
pub open spec fn member_at(members: Seq<(String, Json)>, key: Seq<char>) -> int
    decreases members.len(),
{
    if members.len() == 0 || members[0].0@ == key {
        0
    } else {
        1 + member_at(members.drop_first(), key)
    }
}

/// The member of an object.
pub open spec fn member(value: Json, key: Seq<char>) -> Option<Json> {
    match value {
        Json::Object(members) => {
            let at = member_at(members@, key);
            if at < members@.len() {
                Some(members@[at].1)
            } else {
                None
            }
        },
        _ => None,
    }
}

/// The member of an object, which may itself be missing.
pub open spec fn member_of(value: Option<Json>, key: Seq<char>) -> Option<Json> {
    match value {
        Some(value) => member(value, key),
        None => None,
    }
}

/// The text that a value is.
pub open spec fn text_of(value: Option<Json>) -> Option<Seq<char>> {
    match value {
        Some(Json::Text(s)) => Some(s@),
        _ => None,
    }
}

proof fn lemma_member_at(members: Seq<(String, Json)>, key: Seq<char>, at: int)
    requires
        0 <= at <= members.len(),
        forall|k: int| 0 <= k < at ==> (#[trigger] members[k]).0@ != key,
        at < members.len() ==> members[at].0@ == key,
    ensures
        member_at(members, key) == at,
    decreases members.len(),
{
    if at > 0 {
        let rest = members.drop_first();
        assert forall|k: int| 0 <= k < at - 1 implies (#[trigger] rest[k]).0@ != key by {
            assert(rest[k] == members[k + 1]);
        }
        if at < members.len() {
            assert(rest[at - 1] == members[at]);
        }
        assert(members[0].0@ != key);
        lemma_member_at(rest, key, at - 1);
    }
}

fn find_member(members: &Vec<(String, Json)>, key: &str) -> (r: usize)
    ensures
        r == member_at(members@, key@),
        r <= members@.len(),
{
    let mut i: usize = 0;
    while i < members.len() && !str_eq(members[i].0.as_str(), key)
        invariant
            i <= members@.len(),
            forall|k: int| 0 <= k < i ==> (#[trigger] members@[k]).0@ != key@,
        decreases members.len() - i,
    {
        i = i + 1;
    }
    proof {
        lemma_member_at(members@, key@, i as int);
    }
    i
}

impl Json {
    pub fn get(&self, key: &str) -> (r: Option<&Json>)
        ensures
            match r {
                Some(v) => member(*self, key@) == Some(*v),
                None => member(*self, key@) is None,
            },
    {
        match self {
            Json::Object(members) => {
                let at: usize = find_member(members, key);
                if at < members.len() {
                    Some(&members[at].1)
                } else {
                    None
                }
            },
            _ => None,
        }
    }

    /// Takes a member out of an object.
    pub fn into_member(self, key: &str) -> (r: Option<Json>)
        ensures
            r == member(self, key@),
    {
        match self {
            Json::Object(members) => {
                let mut list = members;
                let at: usize = find_member(&list, key);
                if at < list.len() {
                    let (_, value) = list.remove(at);
                    Some(value)
                } else {
                    None
                }
            },
            _ => None,
        }
    }
}

/// The text at a path of members.
fn text_at(value: &Json, first: &str, second: &str, third: &str) -> (r: Option<String>)
    ensures
        opt(r) == text_of(member_of(member_of(member(*value, first@), second@), third@)),
{
    match value.get(first) {
        None => None,
        Some(a) => match a.get(second) {
            None => None,
            Some(b) => match b.get(third) {
                Some(Json::Text(s)) => Some(s.clone()),
                _ => None,
            },
        },
    }
}

#[derive(Debug, Clone, Copy, PartialEq, Eq, Structural)]
pub enum ResourceRecordType {
    Current,
    Added,
    Modified,
    Deleted,
    Bookmark,
}

/// Where a record that is read out comes from.
#[derive(Debug, PartialEq, Eq)]
pub enum RecordProvenance {
    Local { node_id: String },
    Replica { origin_root: String, last_synced_at: String },
}

/// A record as it is read out.
#[derive(Debug, PartialEq, Eq)]
pub struct ResourceReadRecord {
    pub record_type: ResourceRecordType,
    pub provenance: RecordProvenance,
    pub object: Option<Json>,
}

/// An annotation of an object.
pub open spec fn annotation(object: Json, key: Seq<char>) -> Option<Seq<char>> {
    text_of(member_of(member_of(member(object, "metadata"@), "annotations"@), key))
}

/// `p` says where an object comes from: from the origin that both annotations
/// name, else from this node.
pub open spec fn provenance_of(p: RecordProvenance, object: Json, node: Seq<char>) -> bool {
    match (
        annotation(object, "flotilla.work/origin-root"@),
        annotation(object, "flotilla.work/last-synced-at"@),
    ) {
        (Some(root), Some(at)) => p matches RecordProvenance::Replica { origin_root, last_synced_at } && origin_root@
            == root && last_synced_at@ == at,
        _ => p matches RecordProvenance::Local { node_id } && node_id@ == node,
    }
}

/// `r` reads out an object.
pub open spec fn record_of(r: ResourceReadRecord, record_type: ResourceRecordType, object: Json, node: Seq<char>) -> bool {
    &&& r.record_type == record_type
    &&& r.object == Some(object)
    &&& provenance_of(r.provenance, object, node)
}

pub fn resource_record(record_type: ResourceRecordType, object: Json, local_node_id: &str) -> (r: ResourceReadRecord)
    ensures
        record_of(r, record_type, object, local_node_id@),
{
    let origin_root = text_at(&object, "metadata", "annotations", "flotilla.work/origin-root");
    let last_synced_at = text_at(&object, "metadata", "annotations", "flotilla.work/last-synced-at");
    let provenance = match (origin_root, last_synced_at) {
        (Some(origin_root), Some(last_synced_at)) => RecordProvenance::Replica { origin_root, last_synced_at },
        _ => RecordProvenance::Local { node_id: local_node_id.to_owned() },
    };
    ResourceReadRecord { record_type, provenance, object: Some(object) }
}

/// The kind of change a watch event's type names.
pub open spec fn event_kind(word: Seq<char>) -> Option<ResourceRecordType> {
    if word == "ADDED"@ {
        Some(ResourceRecordType::Added)
    } else if word == "MODIFIED"@ {
        Some(ResourceRecordType::Modified)
    } else if word == "DELETED"@ {
        Some(ResourceRecordType::Deleted)
    } else {
        None
    }
}

/// `r` is what a watch event turns into: nothing for a bookmark, a record for
/// a change, an error for anything else.
pub open spec fn event_record(event: Json, node: Seq<char>, r: Result<Option<ResourceReadRecord>, String>) -> bool {
    match text_of(member(event, "type"@)) {
        None => r matches Err(e) && e@ == "resource watch event is missing type"@,
        Some(word) => if word == "BOOKMARK"@ {
            r == Ok::<Option<ResourceReadRecord>, String>(None)
        } else {
            match event_kind(word) {
                None => r matches Err(e) && e@ == "unknown resource watch event type '"@ + word + "'"@,
                Some(kind) => match member(event, "object"@) {
                    None => r matches Err(e) && e@ == "resource watch event is missing object"@,
                    Some(object) => r matches Ok(Some(record)) && record_of(record, kind, object, node),
                },
            }
        },
    }
}

pub fn resource_watch_record(event: Json, local_node_id: &str) -> (r: Result<Option<ResourceReadRecord>, String>)
    ensures
        event_record(event, local_node_id@, r),
{
    let word = match event.get("type") {
        Some(Json::Text(word)) => word.clone(),
        _ => {
            return Err("resource watch event is missing type".to_owned());
        },
    };
    proof {
        reveal_strlit("BOOKMARK");
        reveal_strlit("ADDED");
        reveal_strlit("MODIFIED");
        reveal_strlit("DELETED");
        assert("ADDED"@.len() == 5);
        assert("MODIFIED"@.len() == 8 && "BOOKMARK"@.len() == 8);
        assert("DELETED"@.len() == 7);
        assert("MODIFIED"@[0] == 'M' && "BOOKMARK"@[0] == 'B');
    }
    if str_eq(word.as_str(), "BOOKMARK") {
        return Ok(None);
    }
    let kind = if str_eq(word.as_str(), "ADDED") {
        ResourceRecordType::Added
    } else if str_eq(word.as_str(), "MODIFIED") {
        ResourceRecordType::Modified
    } else if str_eq(word.as_str(), "DELETED") {
        ResourceRecordType::Deleted
    } else {
        return Err(concat3("unknown resource watch event type '", word.as_str(), "'"));
    };
    match event.into_member("object") {
        None => Err("resource watch event is missing object".to_owned()),
        Some(object) => Ok(Some(resource_record(kind, object, local_node_id))),
    }
}

/// The name of the object a record reads out.
pub open spec fn record_name(record: ResourceReadRecord) -> Option<Seq<char>> {
    text_of(member_of(member_of(record.object, "metadata"@), "name"@))
}

/// Whether a record is of the object asked for.
pub open spec fn name_matches(record: ResourceReadRecord, name: Option<Seq<char>>) -> bool {
    name is None || record_name(record) == name
}

pub fn resource_record_matches_name(record: &ResourceReadRecord, name: &Option<String>) -> (r: bool)
    ensures
        r == name_matches(*record, opt(*name)),
{
    match name {
        None => true,
        Some(name) => match &record.object {
            None => false,
            Some(object) => match object.get("metadata") {
                None => false,
                Some(metadata) => match metadata.get("name") {
                    Some(Json::Text(s)) => str_eq(s.as_str(), name.as_str()),
                    _ => false,
                },
            },
        },
    }
}

/// A position in the history of a collection.
#[derive(Debug, PartialEq, Eq)]
pub struct ResourceCursor {
    pub resource_version: String,
    pub generation: Option<String>,
}

/// Records with the position they were read at.
#[derive(Debug, PartialEq, Eq)]
pub struct ResourceReadEnvelope {
    pub api_version: String,
    pub resource_kind: String,
    pub plural: String,
    pub namespace: String,
    pub cursor: ResourceCursor,
    pub records: Vec<ResourceReadRecord>,
}

/// The collection that is read.
#[derive(Debug, PartialEq, Eq)]
pub struct Collection {
    pub kind: String,
    pub plural: String,
    pub namespace: String,
    pub resource_version: String,
    pub generation: Option<String>,
}

/// `e` holds records of a collection, read at a version.
pub open spec fn envelope_of(e: ResourceReadEnvelope, c: Collection, version: Seq<char>) -> bool {
    &&& e.api_version@ == "flotilla.work/v1"@
    &&& e.resource_kind == c.kind
    &&& e.plural == c.plural
    &&& e.namespace == c.namespace
    &&& e.cursor.resource_version@ == version
    &&& e.cursor.generation == c.generation
}

pub fn resource_read_envelope(c: &Collection, version: &str, records: Vec<ResourceReadRecord>) -> (e: ResourceReadEnvelope)
    ensures
        envelope_of(e, *c, version@),
        e.records == records,
{
    ResourceReadEnvelope {
        api_version: "flotilla.work/v1".to_owned(),
        resource_kind: c.kind.clone(),
        plural: c.plural.clone(),
        namespace: c.namespace.clone(),
        cursor: ResourceCursor { resource_version: version.to_owned(), generation: opt_clone(&c.generation) },
        records,
    }
}

/// The word a record type is announced with.
pub open spec fn type_word(t: ResourceRecordType) -> Seq<char> {
    match t {
        ResourceRecordType::Current => "Current"@,
        ResourceRecordType::Added => "Added"@,
        ResourceRecordType::Modified => "Modified"@,
        ResourceRecordType::Deleted => "Deleted"@,
        ResourceRecordType::Bookmark => "Bookmark"@,
    }
}

/// How an envelope is announced: the type of its first record, and the kind.
pub fn watch_event_description(e: &ResourceReadEnvelope) -> (r: String)
    ensures
        r@ == (if e.records@.len() > 0 {
            type_word(e.records@[0].record_type)
        } else {
            "CURRENT"@
        }) + " "@ + e.resource_kind@,
{
    let word = if e.records.len() > 0 {
        match e.records[0].record_type {
            ResourceRecordType::Current => "Current",
            ResourceRecordType::Added => "Added",
            ResourceRecordType::Modified => "Modified",
            ResourceRecordType::Deleted => "Deleted",
            ResourceRecordType::Bookmark => "Bookmark",
        }
    } else {
        "CURRENT"
    };
    concat3(word, " ", e.resource_kind.as_str())
}

/// Which watch to open.
#[derive(Debug, PartialEq, Eq)]
pub enum WatchPlan {
    ReplicaSources,
    WithReplicas,
    FromVersion { resource_version: String },
    FromVersionInGeneration { generation: String, resource_version: String },
    Plain,
}

/// Why no watch is opened.
#[derive(Debug, PartialEq, Eq)]
pub enum WatchRefusal {
    /// The cursor cannot be read.
    Cursor(String),
    /// The request is invalid.
    Invalid(String),
}

/// `r` is the watch to open for a request; only a plain watch can resume.
pub open spec fn planned_watch(
    replica_sources: bool,
    with_replicas: bool,
    position: Option<Result<ResourceCursor, String>>,
    r: Result<WatchPlan, WatchRefusal>,
) -> bool {
    match position {
        Some(Err(e)) => r == Err::<WatchPlan, WatchRefusal>(WatchRefusal::Cursor(e)),
        Some(Ok(cursor)) => if replica_sources {
            r matches Err(WatchRefusal::Invalid(e)) && e@ == "replica-source watches do not support cursor resume"@
        } else if with_replicas {
            r matches Err(WatchRefusal::Invalid(e)) && e@ == "include-replicas watches do not support cursor resume"@
        } else {
            r == Ok::<WatchPlan, WatchRefusal>(
                match cursor.generation {
                    Some(generation) => WatchPlan::FromVersionInGeneration {
                        generation,
                        resource_version: cursor.resource_version,
                    },
                    None => WatchPlan::FromVersion { resource_version: cursor.resource_version },
                },
            )
        },
        None => r == Ok::<WatchPlan, WatchRefusal>(
            if replica_sources {
                WatchPlan::ReplicaSources
            } else if with_replicas {
                WatchPlan::WithReplicas
            } else {
                WatchPlan::Plain
            },
        ),
    }
}

/// Which watch to open. `position` is what the cursor reads as, where one was given.
pub fn watch_plan(
    replica_sources: bool,
    with_replicas: bool,
    position: &Option<Result<ResourceCursor, String>>,
) -> (r: Result<WatchPlan, WatchRefusal>)
    ensures
        planned_watch(replica_sources, with_replicas, *position, r),
{
    match position {
        Some(Err(e)) => Err(WatchRefusal::Cursor(e.clone())),
        Some(Ok(cursor)) => {
            if replica_sources {
                Err(WatchRefusal::Invalid("replica-source watches do not support cursor resume".to_owned()))
            } else if with_replicas {
                Err(WatchRefusal::Invalid("include-replicas watches do not support cursor resume".to_owned()))
            } else {
                match &cursor.generation {
                    Some(generation) => Ok(
                        WatchPlan::FromVersionInGeneration {
                            generation: generation.clone(),
                            resource_version: cursor.resource_version.clone(),
                        },
                    ),
                    None => Ok(WatchPlan::FromVersion { resource_version: cursor.resource_version.clone() }),
                }
            }
        },
        None => {
            if replica_sources {
                Ok(WatchPlan::ReplicaSources)
            } else if with_replicas {
                Ok(WatchPlan::WithReplicas)
            } else {
                Ok(WatchPlan::Plain)
            }
        },
    }
}

/// How a watch ends.
#[derive(Debug, PartialEq, Eq)]
pub enum WatchEnd {
    Closed,
    Cancelled,
    Failed(String),
}

/// Whether every event can be turned into a record or left out.
pub open spec fn readable(event: Json, node: Seq<char>) -> bool {
    event_record(event, node, Ok(None)) || exists|r: ResourceReadRecord|
        #[trigger] event_record(event, node, Ok(Some(r)))
}

/// Whether an event turns into a record that is asked for.
pub open spec fn event_wanted(event: Json, node: Seq<char>, name: Option<Seq<char>>) -> bool {
    exists|r: ResourceReadRecord| #[trigger] event_record(event, node, Ok(Some(r))) && name_matches(r, name)
}

/// The events that are wanted, in order.
pub open spec fn wanted_events(events: Seq<Json>, node: Seq<char>, name: Option<Seq<char>>) -> Seq<Json>
    decreases events.len(),
{
    if events.len() == 0 {
        Seq::empty()
    } else {
        let before = wanted_events(events.drop_last(), node, name);
        if event_wanted(events.last(), node, name) {
            before.push(events.last())
        } else {
            before
        }
    }
}

/// `records` reads out the wanted events.
pub open spec fn records_of(records: Seq<ResourceReadRecord>, events: Seq<Json>, node: Seq<char>) -> bool {
    &&& records.len() == events.len()
    &&& forall|i: int| 0 <= i < records.len() ==> event_record(events[i], node, Ok(Some(#[trigger] records[i])))
}

proof fn lemma_same_name(a: ResourceReadRecord, b: ResourceReadRecord, event: Json, node: Seq<char>, name: Option<Seq<char>>)
    requires
        event_record(event, node, Ok(Some(a))),
        event_record(event, node, Ok(Some(b))),
    ensures
        name_matches(a, name) == name_matches(b, name),
{
}

/// The records of the events a watch starts with; the first unreadable event fails it.
pub fn initial_records(events: Vec<Json>, name: &Option<String>, local_node_id: &str) -> (r: Result<Vec<ResourceReadRecord>, String>)
    ensures
        match r {
            Ok(records) => (forall|i: int| 0 <= i < events@.len() ==> readable(#[trigger] events@[i], local_node_id@))
                && records_of(records@, wanted_events(events@, local_node_id@, opt(*name)), local_node_id@),
            Err(e) => exists|i: int|
                {
                    &&& 0 <= i < events@.len()
                    &&& forall|k: int| 0 <= k < i ==> readable(#[trigger] events@[k], local_node_id@)
                    &&& event_record(#[trigger] events@[i], local_node_id@, Err(e))
                },
        },
{
    let ghost all = events@;
    let node = local_node_id;
    let n: usize = events.len();
    let mut rest = events;
    let mut reversed: Vec<Json> = Vec::new();
    let mut i: usize = 0;
    while i < n
        invariant
            i <= n,
            n == all.len(),
            rest@ == all.take(n - i),
            reversed@.len() == i,
            forall|k: int| 0 <= k < i ==> reversed@[k] == all[n - 1 - k],
        decreases n - i,
    {
        let x = rest.pop().unwrap();
        assert(rest@ =~= all.take(n - i - 1));
        reversed.push(x);
        i = i + 1;
    }
    let mut records: Vec<ResourceReadRecord> = Vec::new();
    let mut done: usize = 0;
    while done < n
        invariant
            done <= n,
            n == all.len(),
            all == events@,
            node == local_node_id,
            reversed@.len() == n - done,
            forall|k: int| 0 <= k < n - done ==> reversed@[k] == all[n - 1 - k],
            forall|k: int| 0 <= k < done ==> readable(#[trigger] all[k], node@),
            records_of(records@, wanted_events(all.take(done as int), node@, opt(*name)), node@),
        decreases n - done,
    {
        let event = reversed.pop().unwrap();
        let ghost e = event;
        assert(e == all[done as int]);
        assert(all.take(done + 1).drop_last() =~= all.take(done as int));
        assert(all.take(done + 1).last() == e);
        match resource_watch_record(event, node) {
            Err(message) => {
                assert(event_record(all[done as int], node@, Err(message)));
                return Err(message);
            },
            Ok(None) => {
                assert(readable(all[done as int], node@));
                assert(!event_wanted(e, node@, opt(*name)));
            },
            Ok(Some(record)) => {
                assert(readable(all[done as int], node@));
                let keep = resource_record_matches_name(&record, name);
                let ghost before = wanted_events(all.take(done as int), node@, opt(*name));
                if keep {
                    assert(event_wanted(e, node@, opt(*name)));
                    let ghost was = records@;
                    records.push(record);
                    assert forall|k: int| 0 <= k < records@.len() implies event_record(
                        before.push(e)[k],
                        node@,
                        Ok(Some(#[trigger] records@[k])),
                    ) by {
                        if k < was.len() {
                            assert(records@[k] == was[k]);
                        }
                    }
                } else {
                    proof {
                        if event_wanted(e, node@, opt(*name)) {
                            let other = choose|x: ResourceReadRecord|
                                #[trigger] event_record(e, node@, Ok(Some(x))) && name_matches(x, opt(*name));
                            lemma_same_name(record, other, e, node@, opt(*name));
                        }
                    }
                }
            },
        }
        done = done + 1;
    }
    assert(all.take(n as int) =~= all);
    Ok(records)
}

/// `e` announces that a watch is up to date.
pub open spec fn bookmark(e: ResourceReadEnvelope, c: Collection, node: Seq<char>) -> bool {
    &&& envelope_of(e, c, c.resource_version@)
    &&& e.records@.len() == 1
    &&& e.records@[0].record_type == ResourceRecordType::Bookmark
    &&& e.records@[0].object is None
    &&& e.records@[0].provenance matches RecordProvenance::Local { node_id } && node_id@ == node
}

/// `sent` opens a watch: what there is already, unless the watch resumes, and a bookmark.
pub open spec fn opening(
    sent: Seq<ResourceReadEnvelope>,
    c: Collection,
    events: Seq<Json>,
    resuming: bool,
    name: Option<Seq<char>>,
    node: Seq<char>,
) -> bool {
    if resuming {
        sent.len() == 1 && bookmark(sent[0], c, node)
    } else {
        &&& sent.len() == 2
        &&& envelope_of(sent[0], c, c.resource_version@)
        &&& records_of(sent[0].records@, wanted_events(events, node, name), node)
        &&& bookmark(sent[1], c, node)
    }
}

/// What a watch sends when it opens.
pub fn watch_opening(
    c: &Collection,
    events: Vec<Json>,
    resuming: bool,
    cancelled: bool,
    name: &Option<String>,
    local_node_id: &str,
) -> (r: Result<Vec<ResourceReadEnvelope>, WatchEnd>)
    ensures
        match r {
            Ok(sent) => (resuming || (!cancelled && forall|i: int|
                0 <= i < events@.len() ==> readable(#[trigger] events@[i], local_node_id@))) && opening(
                sent@,
                *c,
                events@,
                resuming,
                opt(*name),
                local_node_id@,
            ),
            Err(WatchEnd::Cancelled) => !resuming && cancelled && forall|i: int|
                0 <= i < events@.len() ==> readable(#[trigger] events@[i], local_node_id@),
            Err(WatchEnd::Failed(e)) => !resuming && exists|i: int|
                {
                    &&& 0 <= i < events@.len()
                    &&& forall|k: int| 0 <= k < i ==> readable(#[trigger] events@[k], local_node_id@)
                    &&& event_record(#[trigger] events@[i], local_node_id@, Err(e))
                },
            Err(WatchEnd::Closed) => false,
        },
{
    let mut sent: Vec<ResourceReadEnvelope> = Vec::new();
    if !resuming {
        match initial_records(events, name, local_node_id) {
            Err(message) => {
                return Err(WatchEnd::Failed(message));
            },
            Ok(records) => {
                if cancelled {
                    return Err(WatchEnd::Cancelled);
                }
                sent.push(resource_read_envelope(c, c.resource_version.as_str(), records));
            },
        }
    }
    let mut mark: Vec<ResourceReadRecord> = Vec::new();
    mark.push(
        ResourceReadRecord {
            record_type: ResourceRecordType::Bookmark,
            provenance: RecordProvenance::Local { node_id: local_node_id.to_owned() },
            object: None,
        },
    );
    sent.push(resource_read_envelope(c, c.resource_version.as_str(), mark));
    Ok(sent)
}

/// What comes in while a watch is open.
pub enum WatchInput {
    Cancelled,
    Event(Json),
    Failed(String),
    Closed,
}

/// What a watch does about it.
#[derive(Debug, PartialEq, Eq)]
pub enum WatchStep {
    Send(ResourceReadEnvelope),
    Skip,
    Finish(WatchEnd),
}

/// The version an event happened at; the watch's own where the event has none.
pub open spec fn event_version(event: Json, initial: Seq<char>) -> Seq<char> {
    match text_of(member_of(member_of(member(event, "object"@), "metadata"@), "resourceVersion"@)) {
        Some(version) => version,
        None => initial,
    }
}

/// `step` answers the input.
pub open spec fn answers_input(
    step: WatchStep,
    input: WatchInput,
    c: Collection,
    name: Option<Seq<char>>,
    node: Seq<char>,
) -> bool {
    match input {
        WatchInput::Cancelled => step == WatchStep::Finish(WatchEnd::Cancelled),
        WatchInput::Closed => step == WatchStep::Finish(WatchEnd::Closed),
        WatchInput::Failed(e) => step == WatchStep::Finish(WatchEnd::Failed(e)),
        WatchInput::Event(event) => match step {
            WatchStep::Finish(end) => end matches WatchEnd::Failed(e) && event_record(event, node, Err(e)),
            WatchStep::Skip => readable(event, node) && !event_wanted(event, node, name),
            WatchStep::Send(envelope) => {
                &&& envelope_of(envelope, c, event_version(event, c.resource_version@))
                &&& envelope.records@.len() == 1
                &&& event_record(event, node, Ok(Some(envelope.records@[0])))
                &&& name_matches(envelope.records@[0], name)
            },
        },
    }
}

/// One step of an open watch.
pub fn watch_step(input: WatchInput, c: &Collection, name: &Option<String>, local_node_id: &str) -> (r: WatchStep)
    ensures
        answers_input(r, input, *c, opt(*name), local_node_id@),
{
    match input {
        WatchInput::Cancelled => WatchStep::Finish(WatchEnd::Cancelled),
        WatchInput::Closed => WatchStep::Finish(WatchEnd::Closed),
        WatchInput::Failed(e) => WatchStep::Finish(WatchEnd::Failed(e)),
        WatchInput::Event(event) => {
            let ghost seen = event;
            let version = match text_at(&event, "object", "metadata", "resourceVersion") {
                Some(version) => version,
                None => c.resource_version.clone(),
            };
            match resource_watch_record(event, local_node_id) {
                Err(e) => WatchStep::Finish(WatchEnd::Failed(e)),
                Ok(None) => {
                    assert(!event_wanted(seen, local_node_id@, opt(*name)));
                    WatchStep::Skip
                },
                Ok(Some(record)) => {
                    if resource_record_matches_name(&record, name) {
                        let mut records: Vec<ResourceReadRecord> = Vec::new();
                        records.push(record);
                        WatchStep::Send(resource_read_envelope(c, version.as_str(), records))
                    } else {
                        proof {
                            assert(readable(seen, local_node_id@));
                            if event_wanted(seen, local_node_id@, opt(*name)) {
                                let other = choose|x: ResourceReadRecord|
                                    #[trigger] event_record(seen, local_node_id@, Ok(Some(x))) && name_matches(
                                        x,
                                        opt(*name),
                                    );
                                lemma_same_name(record, other, seen, local_node_id@, opt(*name));
                            }
                        }
                        WatchStep::Skip
                    }
                },
            }
        },
    }
}

/// The text of a member of a collection's metadata.
pub open spec fn metadata_text(value: Json, key: Seq<char>) -> Option<Seq<char>> {
    text_of(member_of(member(value, "metadata"@), key))
}

/// The items of a collection, or nothing where it has none.
pub open spec fn items_of(value: Json) -> Seq<Json> {
    match member(value, "items"@) {
        Some(Json::List(items)) => items@,
        _ => Seq::empty(),
    }
}

/// A kind of record, as a collection of it is read.
#[derive(Debug, PartialEq, Eq)]
pub struct KindNames {
    pub kind: String,
    pub plural: String,
    pub namespace: String,
}

/// `e` holds records of a kind, at the position that a collection of it was
/// read at.
pub open spec fn read_at(e: ResourceReadEnvelope, names: KindNames, collection: Json) -> bool {
    &&& e.api_version@ == "flotilla.work/v1"@
    &&& e.resource_kind == names.kind
    &&& e.plural == names.plural
    &&& e.namespace == names.namespace
    &&& e.cursor.resource_version@ == (match metadata_text(collection, "resourceVersion"@) {
        Some(version) => version,
        None => ""@,
    })
    &&& opt(e.cursor.generation) == metadata_text(collection, "generation"@)
}

fn metadata_of(value: &Json, key: &str) -> (r: Option<String>)
    ensures
        opt(r) == metadata_text(*value, key@),
{
    match value.get("metadata") {
        None => None,
        Some(metadata) => match metadata.get(key) {
            Some(Json::Text(s)) => Some(s.clone()),
            _ => None,
        },
    }
}

fn cursor_at(collection: &Json) -> (r: ResourceCursor)
    ensures
        r.resource_version@ == (match metadata_text(*collection, "resourceVersion"@) {
            Some(version) => version,
            None => ""@,
        }),
        opt(r.generation) == metadata_text(*collection, "generation"@),
{
    let resource_version = match metadata_of(collection, "resourceVersion") {
        Some(version) => version,
        None => "".to_owned(),
    };
    ResourceCursor { resource_version, generation: metadata_of(collection, "generation") }
}

/// What a list of a kind reads out: each of its items as it stands, at the
/// position of the list.
pub fn resource_list_response(names: KindNames, collection: Json, local_node_id: &str) -> (e: ResourceReadEnvelope)
    ensures
        read_at(e, names, collection),
        e.records@.len() == items_of(collection).len(),
        forall|i: int|
            0 <= i < e.records@.len() ==> record_of(
                #[trigger] e.records@[i],
                ResourceRecordType::Current,
                items_of(collection)[i],
                local_node_id@,
            ),
{
    let cursor = cursor_at(&collection);
    let ghost items = items_of(collection);
    let mut list = match collection.into_member("items") {
        Some(Json::List(list)) => list,
        _ => Vec::new(),
    };
    assert(list@ =~= items);
    let mut back: Vec<ResourceReadRecord> = Vec::new();
    while list.len() > 0
        invariant
            list@.len() + back@.len() == items.len(),
            list@ == items.take(list@.len() as int),
            forall|k: int|
                0 <= k < back@.len() ==> record_of(
                    #[trigger] back@[k],
                    ResourceRecordType::Current,
                    items[items.len() - 1 - k],
                    local_node_id@,
                ),
        decreases list.len(),
    {
        let ghost n = list@.len();
        match list.pop() {
            Some(object) => {
                assert(object == items[n - 1]);
                back.push(resource_record(ResourceRecordType::Current, object, local_node_id));
                assert(list@ =~= items.take(n - 1));
            },
            None => {},
        }
    }
    let mut records: Vec<ResourceReadRecord> = Vec::new();
    let ghost whole = back@;
    while back.len() > 0
        invariant
            whole.len() == items.len(),
            back@ == whole.take(back@.len() as int),
            back@.len() + records@.len() == whole.len(),
            forall|k: int|
                0 <= k < whole.len() ==> record_of(
                    #[trigger] whole[k],
                    ResourceRecordType::Current,
                    items[items.len() - 1 - k],
                    local_node_id@,
                ),
            forall|k: int|
                0 <= k < records@.len() ==> record_of(
                    #[trigger] records@[k],
                    ResourceRecordType::Current,
                    items[k],
                    local_node_id@,
                ),
        decreases back.len(),
    {
        let ghost n = back@.len();
        match back.pop() {
            Some(record) => {
                assert(record == whole[n - 1]);
                records.push(record);
                assert(back@ =~= whole.take(n - 1));
            },
            None => {},
        }
    }
    ResourceReadEnvelope {
        api_version: "flotilla.work/v1".to_owned(),
        resource_kind: names.kind,
        plural: names.plural,
        namespace: names.namespace,
        cursor,
        records,
    }
}

/// What was found of an object that is asked for.
#[derive(Debug, PartialEq, Eq)]
pub enum ObjectReading {
    Found { names: KindNames, object: Json },
    Absent,
    Unreadable { error: String },
}

/// `r` is what asking for an object comes to. The position is taken before the
/// object is read: a change in between is seen again rather than missed.
pub open spec fn object_read(
    r: Result<ResourceReadEnvelope, String>,
    kind: Seq<char>,
    namespace: Seq<char>,
    name: Seq<char>,
    collection: Result<Json, String>,
    reading: ObjectReading,
    node: Seq<char>,
) -> bool {
    match collection {
        Err(error) => r matches Err(e) && e@ == error@,
        Ok(collection) => match reading {
            ObjectReading::Absent => r matches Err(e) && e@ == "resource "@ + kind + "/"@ + namespace + "/"@ + name
                + " not found"@,
            ObjectReading::Unreadable { error } => r matches Err(e) && e@ == error@,
            ObjectReading::Found { names, object } => {
                &&& r matches Ok(e)
                &&& read_at(e, names, collection)
                &&& e.records@.len() == 1
                &&& record_of(e.records@[0], ResourceRecordType::Current, object, node)
            },
        },
    }
}

/// What asking for an object comes to.
pub fn resource_get_response(
    kind: &str,
    namespace: &str,
    name: &str,
    collection: Result<Json, String>,
    reading: ObjectReading,
    local_node_id: &str,
) -> (r: Result<ResourceReadEnvelope, String>)
    ensures
        object_read(r, kind@, namespace@, name@, collection, reading, local_node_id@),
{
    let collection = match collection {
        Err(e) => {
            return Err(e);
        },
        Ok(collection) => collection,
    };
    match reading {
        ObjectReading::Absent => Err(concat7("resource ", kind, "/", namespace, "/", name, " not found")),
        ObjectReading::Unreadable { error } => Err(error),
        ObjectReading::Found { names, object } => {
            let mut records: Vec<ResourceReadRecord> = Vec::new();
            records.push(resource_record(ResourceRecordType::Current, object, local_node_id));
            Ok(
                ResourceReadEnvelope {
                    api_version: "flotilla.work/v1".to_owned(),
                    resource_kind: names.kind,
                    plural: names.plural,
                    namespace: names.namespace,
                    cursor: cursor_at(&collection),
                    records,
                },
            )
        },
    }
}

/// A query that is subscribed to, with what is known of its result.
#[derive(Debug, PartialEq, Eq)]
pub struct SubscribedQuery {
    pub query: String,
    /// The state that the subscriber has seen.
    pub since: Option<u64>,
    /// Whether the query was not answered for anyone before.
    pub newly_materialized: bool,
    /// The state of its result, where there is one.
    pub seq: Option<u64>,
}

/// Whether a subscriber has to be sent a result.
pub open spec fn needs_result(q: SubscribedQuery) -> bool {
    q.newly_materialized || q.since != q.seq
}

/// Which results a subscriber is sent, or the first query without one.
pub open spec fn results_to_send(queries: Seq<SubscribedQuery>) -> Result<Seq<int>, Seq<char>>
    decreases queries.len(),
{
    if queries.len() == 0 {
        Ok(Seq::empty())
    } else {
        match results_to_send(queries.drop_last()) {
            Err(e) => Err(e),
            Ok(before) => if queries.last().seq is None {
                Err("query is not materialized: "@ + queries.last().query@)
            } else if needs_result(queries.last()) {
                Ok(before.push(queries.len() - 1))
            } else {
                Ok(before)
            },
        }
    }
}

proof fn lemma_unmaterialized_early(queries: Seq<SubscribedQuery>, n: int)
    requires
        0 <= n <= queries.len(),
        results_to_send(queries.take(n)) is Err,
    ensures
        results_to_send(queries) == results_to_send(queries.take(n)),
    decreases queries.len() - n,
{
    if n < queries.len() {
        assert(queries.take(n + 1).drop_last() =~= queries.take(n));
        lemma_unmaterialized_early(queries, n + 1);
    } else {
        assert(queries.take(n) =~= queries);
    }
}

/// Which results a subscriber is sent: those it has not seen.
pub fn subscribe_queries(queries: &Vec<SubscribedQuery>) -> (r: Result<Vec<usize>, String>)
    ensures
        match r {
            Ok(list) => results_to_send(queries@) == Ok::<Seq<int>, Seq<char>>(Seq::new(list@.len(), |i: int| list@[i] as int)),
            Err(e) => results_to_send(queries@) == Err::<Seq<int>, Seq<char>>(e@),
        },
{
    let mut list: Vec<usize> = Vec::new();
    let mut i: usize = 0;
    assert(Seq::new(list@.len(), |k: int| list@[k] as int) =~= Seq::<int>::empty());
    while i < queries.len()
        invariant
            i <= queries@.len(),
            results_to_send(queries@.take(i as int)) == Ok::<Seq<int>, Seq<char>>(
                Seq::new(list@.len(), |k: int| list@[k] as int),
            ),
        decreases queries.len() - i,
    {
        let q = &queries[i];
        assert(queries@.take(i + 1).drop_last() =~= queries@.take(i as int));
        assert(queries@.take(i + 1).last() == *q);
        match q.seq {
            None => {
                proof {
                    lemma_unmaterialized_early(queries@, i + 1);
                }
                return Err(concat2("query is not materialized: ", q.query.as_str()));
            },
            Some(seq) => {
                let seen = match q.since {
                    Some(since) => since == seq,
                    None => false,
                };
                if q.newly_materialized || !seen {
                    let ghost was = list@;
                    list.push(i);
                    assert(Seq::new(list@.len(), |k: int| list@[k] as int) =~= Seq::new(
                        was.len(),
                        |k: int| was[k] as int,
                    ).push(i as int));
                }
            },
        }
        i = i + 1;
    }
    assert(queries@.take(queries@.len() as int) =~= queries@);
    Ok(list)
}

} // verus!
