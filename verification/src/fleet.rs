//! The fleet as one host sees it: crews and convoys by row, hosts by health.
use std::sync::Arc;

use vstd::prelude::*;

use crate::model::{
    share_opt, AttentionState, CrewAttention, CrewWorkPhase, PlacementDecision, PlacementTargetHost, SessionPhase,
    SessionStatus, TerminalSession,
};
use crate::ordered::{text_map, OrderedMap};
use crate::resources::Json;
use crate::sorting::{rank_sort, sort_ranked, Ranked};
use crate::text::{
    blank, concat3, lex_lt, lemma_lex_asymmetric, lemma_lex_total, lemma_lex_transitive, opt, opt_clone, opt_is, str_blank,
    str_eq, str_lt,
};
use crate::time::{elapsed_secs, Timestamp};

verus! {

/// How long a synced replica counts as fresh.
pub const FLEET_REPLICA_FRESH_SECS: i64 = 90;

/// How current a row is.
#[allow(inconsistent_fields)]
#[derive(Debug, PartialEq, Eq)]
pub enum FleetStaleness {
    Local,
    Fresh { last_sync: Timestamp },
    Stale { last_sync: Timestamp },
    Unreachable { last_sync: Option<Timestamp>, message: String },
}

impl FleetStaleness {
    pub fn copy(&self) -> (r: Self)
        ensures
            r == *self,
    {
        match self {
            FleetStaleness::Local => FleetStaleness::Local,
            FleetStaleness::Fresh { last_sync } => FleetStaleness::Fresh { last_sync: *last_sync },
            FleetStaleness::Stale { last_sync } => FleetStaleness::Stale { last_sync: *last_sync },
            FleetStaleness::Unreachable { last_sync, message } => FleetStaleness::Unreachable {
                last_sync: *last_sync,
                message: message.clone(),
            },
        }
    }
}

/// One crew member of the fleet, or a convoy without crew.
#[derive(Debug, PartialEq, Eq)]
pub struct FleetListRow {
    pub convoy: String,
    pub convoy_ref: Option<String>,
    pub vessel: String,
    pub authority: Option<String>,
    pub crew: String,
    pub crew_state: String,
    pub attention: Option<CrewAttention>,
    pub host: String,
    pub placement_decision: Option<Arc<PlacementDecision>>,
    pub namespace: String,
    pub session: Option<String>,
    pub staleness: FleetStaleness,
}

/// `a` precedes `b` in a list of texts compared one after the other.
pub open spec fn texts_le(a: Seq<Seq<char>>, b: Seq<Seq<char>>) -> bool
    decreases a.len(),
{
    if a.len() == 0 || b.len() == 0 {
        a.len() <= b.len()
    } else if a[0] != b[0] {
        lex_lt(a[0], b[0])
    } else {
        texts_le(a.drop_first(), b.drop_first())
    }
}

pub proof fn lemma_texts_total(a: Seq<Seq<char>>, b: Seq<Seq<char>>)
    ensures
        texts_le(a, b) || texts_le(b, a),
    decreases a.len(),
{
    if a.len() > 0 && b.len() > 0 {
        lemma_lex_total(a[0], b[0]);
        if a[0] == b[0] {
            lemma_texts_total(a.drop_first(), b.drop_first());
        }
    }
}

pub proof fn lemma_texts_transitive(a: Seq<Seq<char>>, b: Seq<Seq<char>>, c: Seq<Seq<char>>)
    requires
        texts_le(a, b),
        texts_le(b, c),
    ensures
        texts_le(a, c),
    decreases a.len(),
{
    if a.len() > 0 && b.len() > 0 && c.len() > 0 {
        if a[0] == b[0] && b[0] == c[0] {
            lemma_texts_transitive(a.drop_first(), b.drop_first(), c.drop_first());
        } else if a[0] != b[0] && b[0] != c[0] {
            lemma_lex_transitive(a[0], b[0], c[0]);
            lemma_lex_asymmetric(a[0], c[0]);
        }
    }
}

/// The fields by which fleet rows are listed.
pub open spec fn fleet_key(row: FleetListRow) -> Seq<Seq<char>> {
    seq![row.convoy@, row.host@, row.vessel@, row.crew@]
}

/// Whether four texts come before or with four others.
pub fn texts4_le(a: (&str, &str, &str, &str), b: (&str, &str, &str, &str)) -> (r: bool)
    ensures
        r == texts_le(seq![a.0@, a.1@, a.2@, a.3@], seq![b.0@, b.1@, b.2@, b.3@]),
{
    proof {
        reveal_with_fuel(texts_le, 5);
        let x = seq![a.0@, a.1@, a.2@, a.3@];
        let y = seq![b.0@, b.1@, b.2@, b.3@];
        assert(x.drop_first() =~= seq![a.1@, a.2@, a.3@]);
        assert(y.drop_first() =~= seq![b.1@, b.2@, b.3@]);
        assert(seq![a.1@, a.2@, a.3@].drop_first() =~= seq![a.2@, a.3@]);
        assert(seq![b.1@, b.2@, b.3@].drop_first() =~= seq![b.2@, b.3@]);
        assert(seq![a.2@, a.3@].drop_first() =~= seq![a.3@]);
        assert(seq![b.2@, b.3@].drop_first() =~= seq![b.3@]);
        assert(seq![a.3@].drop_first() =~= Seq::<Seq<char>>::empty());
        assert(seq![b.3@].drop_first() =~= Seq::<Seq<char>>::empty());
    }
    if !str_eq(a.0, b.0) {
        str_lt(a.0, b.0)
    } else if !str_eq(a.1, b.1) {
        str_lt(a.1, b.1)
    } else if !str_eq(a.2, b.2) {
        str_lt(a.2, b.2)
    } else if !str_eq(a.3, b.3) {
        str_lt(a.3, b.3)
    } else {
        true
    }
}

impl Ranked for FleetListRow {
    open spec fn ranks_before(self, other: Self) -> bool {
        texts_le(fleet_key(self), fleet_key(other))
    }

    proof fn ranks_total(a: Self, b: Self) {
        lemma_texts_total(fleet_key(a), fleet_key(b));
    }

    proof fn ranks_transitive(a: Self, b: Self, c: Self) {
        lemma_texts_transitive(fleet_key(a), fleet_key(b), fleet_key(c));
    }

    fn rank_before(&self, other: &Self) -> (r: bool) {
        texts4_le(
            (self.convoy.as_str(), self.host.as_str(), self.vessel.as_str(), self.crew.as_str()),
            (other.convoy.as_str(), other.host.as_str(), other.vessel.as_str(), other.crew.as_str()),
        )
    }
}

/// The word a session's phase is listed under.
pub open spec fn session_label(phase: Option<SessionPhase>) -> Seq<char> {
    match phase {
        Some(SessionPhase::Starting) | None => "starting"@,
        Some(SessionPhase::Running) => "running"@,
        Some(SessionPhase::Stopped) => "stopped"@,
        Some(SessionPhase::Failed) => "failed"@,
    }
}

pub fn session_status_label(phase: Option<SessionPhase>) -> (r: String)
    ensures
        r@ == session_label(phase),
{
    match phase {
        Some(SessionPhase::Starting) | None => "starting".to_owned(),
        Some(SessionPhase::Running) => "running".to_owned(),
        Some(SessionPhase::Stopped) => "stopped".to_owned(),
        Some(SessionPhase::Failed) => "failed".to_owned(),
    }
}

/// What a crew member needs from its operator: nothing unless it runs; an
/// unconfirmed delivery first, an observation too old next, and an idle crew
/// counts as stalled while its work is unsettled.
pub open spec fn attention_of(status: Option<SessionStatus>, work_unsettled: bool) -> Option<CrewAttention> {
    match status {
        Some(status) => if status.phase != SessionPhase::Running {
            None
        } else if opt(status.degraded_reason) == Some("DeliveryUnconfirmed"@) {
            Some(CrewAttention::DeliveryUnconfirmed)
        } else {
            match status.attention {
                None => None,
                Some(attention) => Some(
                    if attention.stale {
                        CrewAttention::Unobservable
                    } else {
                        match attention.state {
                            AttentionState::Working => CrewAttention::Working,
                            AttentionState::NeedsInput => CrewAttention::NeedsInput,
                            AttentionState::Idle => if work_unsettled {
                                CrewAttention::Stalled
                            } else {
                                CrewAttention::Idle
                            },
                            AttentionState::Unobservable => CrewAttention::Unobservable,
                        }
                    },
                ),
            }
        },
        None => None,
    }
}

pub fn crew_attention(status: &Option<SessionStatus>, work_unsettled: bool) -> (r: Option<CrewAttention>)
    ensures
        r == attention_of(*status, work_unsettled),
{
    match status {
        None => None,
        Some(status) => {
            match status.phase {
                SessionPhase::Running => {},
                _ => {
                    return None;
                },
            }
            if opt_is(&status.degraded_reason, "DeliveryUnconfirmed") {
                return Some(CrewAttention::DeliveryUnconfirmed);
            }
            match status.attention {
                None => None,
                Some(attention) => {
                    if attention.stale {
                        return Some(CrewAttention::Unobservable);
                    }
                    Some(
                        match attention.state {
                            AttentionState::Working => CrewAttention::Working,
                            AttentionState::NeedsInput => CrewAttention::NeedsInput,
                            AttentionState::Idle => {
                                if work_unsettled {
                                    CrewAttention::Stalled
                                } else {
                                    CrewAttention::Idle
                                }
                            },
                            AttentionState::Unobservable => CrewAttention::Unobservable,
                        },
                    )
                },
            }
        },
    }
}

/// Whether work in this phase still waits on its crew.
pub open spec fn work_unsettled(phase: CrewWorkPhase) -> bool {
    phase == CrewWorkPhase::Pending || phase == CrewWorkPhase::Working
}

pub fn crew_work_unsettled(phase: CrewWorkPhase) -> (r: bool)
    ensures
        r == work_unsettled(phase),
{
    match phase {
        CrewWorkPhase::Done | CrewWorkPhase::HandedBack | CrewWorkPhase::Failed => false,
        CrewWorkPhase::Pending | CrewWorkPhase::Working => true,
    }
}

/// A convoy as the projection lists it.
#[derive(Debug, PartialEq, Eq)]
pub struct ConvoyRow {
    pub namespace: String,
    pub record_name: String,
    pub name: String,
    pub project_ref: Option<String>,
    pub phase: String,
    pub message: Option<String>,
    pub placement_decision: Option<Arc<PlacementDecision>>,
}

/// `phase`, and the message behind it where there is one.
pub open spec fn convoy_label(row: ConvoyRow) -> Seq<char> {
    match row.message {
        Some(message) => if blank(message@) {
            row.phase@
        } else {
            row.phase@ + ": "@ + message@
        },
        None => row.phase@,
    }
}

pub fn convoy_state_label(row: &ConvoyRow) -> (r: String)
    ensures
        r@ == convoy_label(*row),
{
    match &row.message {
        Some(message) => {
            if str_blank(message.as_str()) {
                row.phase.clone()
            } else {
                concat3(row.phase.as_str(), ": ", message.as_str())
            }
        },
        None => row.phase.clone(),
    }
}

/// A role and its project, spaced for display.
pub open spec fn display_address(role: Seq<char>, project: Option<Seq<char>>) -> Seq<char> {
    match project {
        Some(project) => role + " @ "@ + project,
        None => role,
    }
}

pub fn display_address_str(role: &str, project: &Option<String>) -> (r: String)
    ensures
        r@ == display_address(role@, opt(*project)),
{
    match project {
        Some(project) => concat3(role, " @ ", project.as_str()),
        None => role.to_owned(),
    }
}

/// The names that the rows already list a convoy under.
pub open spec fn rows_name(rows: Seq<FleetListRow>, name: Seq<char>) -> bool {
    exists|i: int| 0 <= i < rows.len() && opt((#[trigger] rows[i]).convoy_ref) == Some(name)
}

/// Whether the `i`th convoy gets a row of its own: it is in the namespace, no
/// row names it, and no earlier convoy of the namespace has its name.
pub open spec fn crewless(
    rows: Seq<FleetListRow>,
    convoys: Seq<ConvoyRow>,
    namespace: Seq<char>,
    i: int,
) -> bool {
    &&& convoys[i].namespace@ == namespace
    &&& !rows_name(rows, convoys[i].record_name@)
    &&& forall|j: int|
        0 <= j < i && (#[trigger] convoys[j]).namespace@ == namespace ==> convoys[j].record_name@
            != convoys[i].record_name@
}

/// The first `n` convoys that get a row of their own, by index.
pub open spec fn crewless_indices(
    rows: Seq<FleetListRow>,
    convoys: Seq<ConvoyRow>,
    namespace: Seq<char>,
    n: int,
) -> Seq<int>
    decreases n,
{
    if n <= 0 {
        Seq::empty()
    } else {
        let before = crewless_indices(rows, convoys, namespace, n - 1);
        if crewless(rows, convoys, namespace, n - 1) {
            before.push(n - 1)
        } else {
            before
        }
    }
}

/// `row` lists a convoy without crew.
pub open spec fn crewless_row(
    row: FleetListRow,
    convoy: ConvoyRow,
    namespace: Seq<char>,
    host: Seq<char>,
    staleness: FleetStaleness,
) -> bool {
    &&& row.convoy@ == display_address(convoy.name@, opt(convoy.project_ref))
    &&& opt(row.convoy_ref) == Some(convoy.record_name@)
    &&& row.vessel@ == "-"@
    &&& row.authority is None
    &&& row.crew@ == "-"@
    &&& row.crew_state@ == convoy_label(convoy)
    &&& row.attention is None
    &&& row.host@ == host
    &&& row.placement_decision == convoy.placement_decision
    &&& row.namespace@ == namespace
    &&& row.session is None
    &&& row.staleness == staleness
}

/// Adds a row for each convoy of the namespace that no row names yet.
pub fn append_crewless_convoy_rows(
    rows: &mut Vec<FleetListRow>,
    target_namespace: &str,
    convoys: &Vec<ConvoyRow>,
    host: &str,
    staleness: &FleetStaleness,
)
    ensures
        ({
            let picked = crewless_indices(old(rows)@, convoys@, target_namespace@, convoys@.len() as int);
            &&& final(rows)@.len() == old(rows)@.len() + picked.len()
            &&& final(rows)@.take(old(rows)@.len() as int) == old(rows)@
            &&& forall|k: int|
                0 <= k < picked.len() ==> crewless_row(
                    #[trigger] final(rows)@[old(rows)@.len() + k],
                    convoys@[picked[k]],
                    target_namespace@,
                    host@,
                    *staleness,
                )
        }),
{
    let ghost start = rows@;
    let n: usize = rows.len();
    let mut i: usize = 0;
    assert(rows@.take(start.len() as int) =~= start);
    while i < convoys.len()
        invariant
            i <= convoys@.len(),
            n == start.len(),
            start == old(rows)@,
            rows@.len() == n + crewless_indices(start, convoys@, target_namespace@, i as int).len(),
            rows@.take(n as int) == start,
            forall|k: int|
                0 <= k < crewless_indices(start, convoys@, target_namespace@, i as int).len()
                    ==> crewless_row(
                    #[trigger] rows@[n + k],
                    convoys@[crewless_indices(start, convoys@, target_namespace@, i as int)[k]],
                    target_namespace@,
                    host@,
                    *staleness,
                ),
        decreases convoys.len() - i,
    {
        let ghost before = crewless_indices(start, convoys@, target_namespace@, i as int);
        let convoy = &convoys[i];
        if is_crewless(rows, n, convoys, target_namespace, i) {
            assert(crewless(start, convoys@, target_namespace@, i as int));
            let row = FleetListRow {
                convoy: display_address_str(convoy.name.as_str(), &convoy.project_ref),
                convoy_ref: Some(convoy.record_name.clone()),
                vessel: "-".to_owned(),
                authority: None,
                crew: "-".to_owned(),
                crew_state: convoy_state_label(convoy),
                attention: None,
                host: host.to_owned(),
                placement_decision: share_opt(&convoy.placement_decision),
                namespace: target_namespace.to_owned(),
                session: None,
                staleness: staleness.copy(),
            };
            let ghost held = rows@;
            rows.push(row);
            assert(rows@.take(n as int) =~= start);
            proof {
                let after = crewless_indices(start, convoys@, target_namespace@, i + 1);
                assert(after == before.push(i as int));
                assert forall|k: int| 0 <= k < after.len() implies crewless_row(
                    #[trigger] rows@[n + k],
                    convoys@[after[k]],
                    target_namespace@,
                    host@,
                    *staleness,
                ) by {
                    if k < before.len() {
                        assert(rows@[n + k] == held[n + k]);
                    }
                }
            }
        } else {
            assert(crewless_indices(start, convoys@, target_namespace@, i + 1) == before);
        }
        i = i + 1;
    }
}

/// Whether the `i`th convoy gets a row, the first `n` rows given.
fn is_crewless(rows: &Vec<FleetListRow>, n: usize, convoys: &Vec<ConvoyRow>, namespace: &str, i: usize) -> (r: bool)
    requires
        n <= rows@.len(),
        i < convoys@.len(),
    ensures
        r == crewless(rows@.take(n as int), convoys@, namespace@, i as int),
{
    let convoy = &convoys[i];
    if !str_eq(convoy.namespace.as_str(), namespace) {
        return false;
    }
    let ghost start = rows@.take(n as int);
    let mut j: usize = 0;
    while j < n
        invariant
            j <= n <= rows@.len(),
            i < convoys@.len(),
            convoy == convoys@[i as int],
            start == rows@.take(n as int),
            forall|k: int| 0 <= k < j ==> opt((#[trigger] start[k]).convoy_ref) != Some(convoy.record_name@),
        decreases n - j,
    {
        if opt_is(&rows[j].convoy_ref, convoy.record_name.as_str()) {
            assert(start[j as int] == rows@[j as int]);
            return false;
        }
        j = j + 1;
    }
    let mut j: usize = 0;
    while j < i
        invariant
            j <= i < convoys@.len(),
            convoy == convoys@[i as int],
            forall|k: int|
                0 <= k < j && (#[trigger] convoys@[k]).namespace@ == namespace@ ==> convoys@[k].record_name@
                    != convoy.record_name@,
        decreases i - j,
    {
        if str_eq(convoys[j].namespace.as_str(), namespace) && str_eq(
            convoys[j].record_name.as_str(),
            convoy.record_name.as_str(),
        ) {
            return false;
        }
        j = j + 1;
    }
    true
}

/// What the rows of one host are made from, besides the sessions.
pub struct FleetContext {
    /// The host this daemon runs on.
    pub host_name: String,
    /// Convoy record to display address.
    pub convoy_addresses: OrderedMap<String>,
    /// Whether a convoy's vessel's role still has unsettled work.
    pub unsettled: Vec<CrewWork>,
    /// Convoy record to the authority over its checkout's life.
    pub authorities: OrderedMap<String>,
    /// Environment to the host it is bound to.
    pub environments: OrderedMap<EnvironmentHost>,
    /// The identifier of the host this daemon runs on.
    pub local_host_id: Option<String>,
    pub decisions: Vec<ConvoyDecision>,
}

/// The host an environment is bound to.
#[derive(Debug, PartialEq, Eq)]
pub struct EnvironmentHost {
    /// The reference of its host-direct binding, else of its docker binding.
    pub host_ref: Option<String>,
    /// The one known host that the reference names, where there is one.
    pub target: Option<PlacementTargetHost>,
}

/// The reference of the host-direct binding, else of the docker binding.
pub open spec fn environment_host_ref(host_direct: Option<String>, docker: Option<String>) -> Option<Seq<char>> {
    match host_direct {
        Some(host_ref) => Some(host_ref@),
        None => opt(docker),
    }
}

pub fn resource_environment_host_ref(host_direct: &Option<String>, docker: &Option<String>) -> (r: Option<String>)
    ensures
        opt(r) == environment_host_ref(*host_direct, *docker),
{
    match host_direct {
        Some(host_ref) => Some(host_ref.clone()),
        None => opt_clone(docker),
    }
}

/// The name a host reference is listed under: this host's own name for its
/// own identifier, else the reference.
pub open spec fn name_of_host(reference: Seq<char>, local_host_id: Option<Seq<char>>, host_name: Seq<char>) -> Seq<char> {
    if local_host_id == Some(reference) {
        host_name
    } else {
        reference
    }
}

pub fn host_name_for_canonical_ref(reference: &str, local_host_id: &Option<String>, host_name: &str) -> (r: String)
    ensures
        r@ == name_of_host(reference@, opt(*local_host_id), host_name@),
{
    if opt_is(local_host_id, reference) {
        host_name.to_owned()
    } else {
        reference.to_owned()
    }
}

/// The host a session is listed on. A reference that names no single known
/// host stands for itself, so that one bad alias spoils only its own row.
pub open spec fn session_host(cx: FleetContext, env_ref: Seq<char>) -> Seq<char> {
    if cx.environments@.dom().contains(env_ref) {
        let binding = cx.environments@[env_ref];
        match (binding.host_ref, binding.target) {
            (None, _) => cx.host_name@,
            (Some(_), Some(target)) => name_of_host(target.reference@, opt(cx.local_host_id), cx.host_name@),
            (Some(host_ref), None) => name_of_host(host_ref@, opt(cx.local_host_id), cx.host_name@),
        }
    } else {
        cx.host_name@
    }
}

fn session_host_str(cx: &FleetContext, env_ref: &str) -> (r: String)
    ensures
        r@ == session_host(*cx, env_ref@),
{
    match cx.environments.get(env_ref) {
        None => cx.host_name.clone(),
        Some(binding) => match (&binding.host_ref, &binding.target) {
            (None, _) => cx.host_name.clone(),
            (Some(_), Some(target)) => host_name_for_canonical_ref(
                target.reference.as_str(),
                &cx.local_host_id,
                cx.host_name.as_str(),
            ),
            (Some(host_ref), None) => host_name_for_canonical_ref(
                host_ref.as_str(),
                &cx.local_host_id,
                cx.host_name.as_str(),
            ),
        },
    }
}

/// A convoy's identity, and the work of its crews.
pub struct ConvoyWork {
    pub name: String,
    pub role: String,
    pub project_ref: Option<String>,
    pub crew_work: Vec<CrewPhase>,
}

/// The phase of one role's work on one vessel.
pub struct CrewPhase {
    pub vessel: String,
    pub role: String,
    pub phase: CrewWorkPhase,
}

/// Each convoy's display address; of two with one name the later counts.
pub open spec fn addresses_of(convoys: Seq<ConvoyWork>) -> Map<Seq<char>, Seq<char>>
    decreases convoys.len(),
{
    if convoys.len() == 0 {
        Map::empty()
    } else {
        let last = convoys.last();
        addresses_of(convoys.drop_last()).insert(last.name@, display_address(last.role@, opt(last.project_ref)))
    }
}

pub fn convoy_addresses(convoys: &Vec<ConvoyWork>) -> (r: OrderedMap<String>)
    ensures
        text_map(r@) == addresses_of(convoys@),
{
    let mut r: OrderedMap<String> = OrderedMap::new();
    let mut i: usize = 0;
    assert(text_map(r@) =~= addresses_of(convoys@.take(0)));
    while i < convoys.len()
        invariant
            i <= convoys@.len(),
            text_map(r@) == addresses_of(convoys@.take(i as int)),
        decreases convoys.len() - i,
    {
        let c = &convoys[i];
        let ghost before = r@;
        r.insert(c.name.clone(), display_address_str(c.role.as_str(), &c.project_ref));
        assert(convoys@.take(i + 1).drop_last() =~= convoys@.take(i as int));
        assert(text_map(r@) =~= text_map(before).insert(c.name@, display_address(c.role@, opt(c.project_ref))));
        i = i + 1;
    }
    assert(convoys@.take(convoys@.len() as int) =~= convoys@);
    r
}

/// A checkout's convoy, and who decides over its life where that can be read.
pub struct CheckoutAuthority {
    pub convoy: Option<String>,
    pub authority: Result<Option<String>, String>,
}

/// The authority over each convoy's checkouts, where one is recorded; the
/// first unreadable authority of a convoy's checkout is the error.
pub open spec fn authorities_of(checkouts: Seq<CheckoutAuthority>) -> Result<Map<Seq<char>, Seq<char>>, Seq<char>>
    decreases checkouts.len(),
{
    if checkouts.len() == 0 {
        Ok(Map::empty())
    } else {
        match authorities_of(checkouts.drop_last()) {
            Err(e) => Err(e),
            Ok(m) => match (checkouts.last().convoy, checkouts.last().authority) {
                (None, _) => Ok(m),
                (Some(_), Err(e)) => Err(e@),
                (Some(_), Ok(None)) => Ok(m),
                (Some(convoy), Ok(Some(authority))) => Ok(m.insert(convoy@, authority@)),
            },
        }
    }
}

proof fn lemma_authorities_fail_early(checkouts: Seq<CheckoutAuthority>, n: int)
    requires
        0 <= n <= checkouts.len(),
        authorities_of(checkouts.take(n)) is Err,
    ensures
        authorities_of(checkouts) == authorities_of(checkouts.take(n)),
    decreases checkouts.len() - n,
{
    if n < checkouts.len() {
        assert(checkouts.take(n + 1).drop_last() =~= checkouts.take(n));
        lemma_authorities_fail_early(checkouts, n + 1);
    } else {
        assert(checkouts.take(n) =~= checkouts);
    }
}

pub fn convoy_authorities(checkouts: &Vec<CheckoutAuthority>) -> (r: Result<OrderedMap<String>, String>)
    ensures
        match r {
            Ok(m) => authorities_of(checkouts@) == Ok::<Map<Seq<char>, Seq<char>>, Seq<char>>(text_map(m@)),
            Err(e) => authorities_of(checkouts@) == Err::<Map<Seq<char>, Seq<char>>, Seq<char>>(e@),
        },
{
    let mut r: OrderedMap<String> = OrderedMap::new();
    let mut i: usize = 0;
    assert(text_map(r@) =~= Map::<Seq<char>, Seq<char>>::empty());
    while i < checkouts.len()
        invariant
            i <= checkouts@.len(),
            authorities_of(checkouts@.take(i as int)) == Ok::<Map<Seq<char>, Seq<char>>, Seq<char>>(text_map(r@)),
        decreases checkouts.len() - i,
    {
        let c = &checkouts[i];
        assert(checkouts@.take(i + 1).drop_last() =~= checkouts@.take(i as int));
        assert(checkouts@.take(i + 1).last() == *c);
        if let Some(convoy) = &c.convoy {
            match &c.authority {
                Err(e) => {
                    proof {
                        lemma_authorities_fail_early(checkouts@, i + 1);
                    }
                    return Err(e.clone());
                },
                Ok(None) => {},
                Ok(Some(authority)) => {
                    let ghost before = r@;
                    r.insert(convoy.clone(), authority.clone());
                    assert(text_map(r@) =~= text_map(before).insert(convoy@, authority@));
                },
            }
        }
        i = i + 1;
    }
    assert(checkouts@.take(checkouts@.len() as int) =~= checkouts@);
    Ok(r)
}

/// `work` holds an entry for each crew phase of each convoy, in order.
pub open spec fn crew_work_of(convoys: Seq<ConvoyWork>) -> Seq<(Seq<char>, CrewPhase)>
    decreases convoys.len(),
{
    if convoys.len() == 0 {
        Seq::empty()
    } else {
        let last = convoys.last();
        crew_work_of(convoys.drop_last()) + last.crew_work@.map_values(|p: CrewPhase| (last.name@, p))
    }
}

/// `work` says of each crew phase whether it is unsettled.
pub open spec fn settles(work: Seq<CrewWork>, phases: Seq<(Seq<char>, CrewPhase)>) -> bool {
    &&& work.len() == phases.len()
    &&& forall|i: int|
        0 <= i < work.len() ==> {
            &&& (#[trigger] work[i]).convoy@ == phases[i].0
            &&& work[i].vessel@ == phases[i].1.vessel@
            &&& work[i].role@ == phases[i].1.role@
            &&& work[i].unsettled == work_unsettled(phases[i].1.phase)
        }
}

pub fn unsettled_crew_work(convoys: &Vec<ConvoyWork>) -> (r: Vec<CrewWork>)
    ensures
        settles(r@, crew_work_of(convoys@)),
{
    let mut r: Vec<CrewWork> = Vec::new();
    let mut i: usize = 0;
    while i < convoys.len()
        invariant
            i <= convoys@.len(),
            settles(r@, crew_work_of(convoys@.take(i as int))),
        decreases convoys.len() - i,
    {
        let c = &convoys[i];
        let ghost before = crew_work_of(convoys@.take(i as int));
        let ghost mine = c.crew_work@.map_values(|p: CrewPhase| (c.name@, p));
        let mut j: usize = 0;
        assert(before + mine.take(0) =~= before);
        while j < c.crew_work.len()
            invariant
                j <= c.crew_work@.len(),
                mine == c.crew_work@.map_values(|p: CrewPhase| (c.name@, p)),
                settles(r@, before + mine.take(j as int)),
            decreases c.crew_work.len() - j,
        {
            let p = &c.crew_work[j];
            r.push(
                CrewWork {
                    convoy: c.name.clone(),
                    vessel: p.vessel.clone(),
                    role: p.role.clone(),
                    unsettled: crew_work_unsettled(p.phase),
                },
            );
            assert(before + mine.take(j + 1) =~= (before + mine.take(j as int)).push(mine[j as int]));
            j = j + 1;
        }
        assert(mine.take(c.crew_work@.len() as int) =~= mine);
        assert(convoys@.take(i + 1).drop_last() =~= convoys@.take(i as int));
        i = i + 1;
    }
    assert(convoys@.take(convoys@.len() as int) =~= convoys@);
    r
}

/// The work of one role on one vessel of one convoy.
pub struct CrewWork {
    pub convoy: String,
    pub vessel: String,
    pub role: String,
    pub unsettled: bool,
}

/// The placement decided for a convoy.
pub struct ConvoyDecision {
    pub namespace: String,
    pub convoy: String,
    pub decision: Arc<PlacementDecision>,
}

/// The last entry for the convoy's vessel's role; work nobody tracks is unsettled.
pub open spec fn unsettled_in(
    work: Seq<CrewWork>,
    convoy: Seq<char>,
    vessel: Option<Seq<char>>,
    role: Seq<char>,
) -> bool
    decreases work.len(),
{
    if work.len() == 0 || vessel is None {
        true
    } else if work.last().convoy@ == convoy && work.last().vessel@ == vessel->0 && work.last().role@ == role {
        work.last().unsettled
    } else {
        unsettled_in(work.drop_last(), convoy, vessel, role)
    }
}

fn find_unsettled(work: &Vec<CrewWork>, convoy: &str, vessel: &Option<String>, role: &str) -> (r: bool)
    ensures
        r == unsettled_in(work@, convoy@, opt(*vessel), role@),
{
    match vessel {
        None => true,
        Some(vessel_name) => {
            let mut i: usize = work.len();
            assert(work@.take(i as int) =~= work@);
            while i > 0
                invariant
                    i <= work@.len(),
                    *vessel == Some(*vessel_name),
                    unsettled_in(work@, convoy@, opt(*vessel), role@) == unsettled_in(
                        work@.take(i as int),
                        convoy@,
                        opt(*vessel),
                        role@,
                    ),
                decreases i,
            {
                let w = &work[i - 1];
                assert(work@.take(i as int).last() == *w);
                assert(work@.take(i as int).drop_last() =~= work@.take(i - 1));
                if str_eq(w.convoy.as_str(), convoy) && str_eq(w.vessel.as_str(), vessel_name.as_str()) && str_eq(
                    w.role.as_str(),
                    role,
                ) {
                    return w.unsettled;
                }
                i = i - 1;
            }
            true
        },
    }
}

/// The last decision for the convoy.
pub open spec fn decision_in(
    decisions: Seq<ConvoyDecision>,
    namespace: Seq<char>,
    convoy: Seq<char>,
) -> Option<Arc<PlacementDecision>>
    decreases decisions.len(),
{
    if decisions.len() == 0 {
        None
    } else if decisions.last().namespace@ == namespace && decisions.last().convoy@ == convoy {
        Some(decisions.last().decision)
    } else {
        decision_in(decisions.drop_last(), namespace, convoy)
    }
}

fn find_decision(decisions: &Vec<ConvoyDecision>, namespace: &str, convoy: &str) -> (r: Option<Arc<PlacementDecision>>)
    ensures
        r == decision_in(decisions@, namespace@, convoy@),
{
    let mut i: usize = decisions.len();
    assert(decisions@.take(i as int) =~= decisions@);
    while i > 0
        invariant
            i <= decisions@.len(),
            decision_in(decisions@, namespace@, convoy@) == decision_in(
                decisions@.take(i as int),
                namespace@,
                convoy@,
            ),
        decreases i,
    {
        let d = &decisions[i - 1];
        assert(decisions@.take(i as int).last() == *d);
        assert(decisions@.take(i as int).drop_last() =~= decisions@.take(i - 1));
        if str_eq(d.namespace.as_str(), namespace) && str_eq(d.convoy.as_str(), convoy) {
            return Some(crate::model::share(&d.decision));
        }
        i = i - 1;
    }
    None
}

/// The convoy a session's row is listed under.
pub open spec fn session_convoy(s: TerminalSession) -> Seq<char> {
    match s.labels.convoy {
        Some(convoy) => convoy@,
        None => "-"@,
    }
}

/// The role of a session: its label's, else its own.
pub open spec fn session_role(s: TerminalSession) -> Seq<char> {
    match s.labels.role {
        Some(role) => role@,
        None => s.role@,
    }
}

/// `vessel/role`, or the role alone.
pub open spec fn session_crew(s: TerminalSession) -> Seq<char> {
    match s.labels.vessel {
        Some(vessel) => vessel@ + "/"@ + session_role(s),
        None => session_role(s),
    }
}

/// The value of a map of texts, or another.
pub open spec fn text_or(m: Map<Seq<char>, String>, k: Seq<char>, other: Seq<char>) -> Seq<char> {
    if m.dom().contains(k) {
        m[k]@
    } else {
        other
    }
}

/// `row` lists the crew member of a session.
pub open spec fn crew_row(row: FleetListRow, s: TerminalSession, cx: FleetContext) -> bool {
    let convoy = session_convoy(s);
    &&& row.convoy@ == text_or(cx.convoy_addresses@, convoy, convoy)
    &&& opt(row.convoy_ref) == (if convoy == "-"@ {
        None
    } else {
        Some(convoy)
    })
    &&& row.vessel@ == s.env_ref@
    &&& opt(row.authority) == (if cx.authorities@.dom().contains(convoy) {
        Some(cx.authorities@[convoy]@)
    } else {
        None
    })
    &&& row.crew@ == session_crew(s)
    &&& row.crew_state@ == session_label(crate::model::session_phase(s))
    &&& row.attention == attention_of(
        s.status,
        unsettled_in(cx.unsettled@, convoy, opt(s.labels.vessel), session_role(s)),
    )
    &&& row.host@ == session_host(cx, s.env_ref@)
    &&& row.placement_decision == decision_in(cx.decisions@, s.namespace@, convoy)
    &&& row.namespace@ == s.namespace@
    &&& opt(row.session) == Some(s.name@)
    &&& row.staleness == FleetStaleness::Local
}

fn text_or_str(m: &OrderedMap<String>, k: &str, other: &str) -> (r: String)
    ensures
        r@ == text_or(m@, k@, other@),
{
    match m.get(k) {
        Some(v) => v.clone(),
        None => other.to_owned(),
    }
}

/// The row of one session.
pub fn crew_row_of(s: &TerminalSession, cx: &FleetContext) -> (row: FleetListRow)
    ensures
        crew_row(row, *s, *cx),
{
    let convoy = match &s.labels.convoy {
        Some(convoy) => convoy.clone(),
        None => "-".to_owned(),
    };
    let role = match &s.labels.role {
        Some(role) => role.clone(),
        None => s.role.clone(),
    };
    let crew = match &s.labels.vessel {
        Some(vessel) => concat3(vessel.as_str(), "/", role.as_str()),
        None => role.clone(),
    };
    let unsettled = find_unsettled(&cx.unsettled, convoy.as_str(), &s.labels.vessel, role.as_str());
    let authority = match cx.authorities.get(convoy.as_str()) {
        Some(a) => Some(a.clone()),
        None => None,
    };
    let convoy_ref = if str_eq(convoy.as_str(), "-") {
        None
    } else {
        Some(convoy.clone())
    };
    FleetListRow {
        convoy: text_or_str(&cx.convoy_addresses, convoy.as_str(), convoy.as_str()),
        convoy_ref,
        vessel: s.env_ref.clone(),
        authority,
        crew,
        crew_state: session_status_label(s.phase()),
        attention: crew_attention(&s.status, unsettled),
        host: session_host_str(cx, s.env_ref.as_str()),
        placement_decision: find_decision(&cx.decisions, s.namespace.as_str(), convoy.as_str()),
        namespace: s.namespace.clone(),
        session: Some(s.name.clone()),
        staleness: FleetStaleness::Local,
    }
}

/// `rows` lists each session in turn, and behind them the convoys without crew.
pub open spec fn local_rows(
    rows: Seq<FleetListRow>,
    sessions: Seq<TerminalSession>,
    convoys: Seq<ConvoyRow>,
    namespace: Seq<char>,
    cx: FleetContext,
) -> bool {
    let n = sessions.len();
    let picked = crewless_indices(rows.take(n as int), convoys, namespace, convoys.len() as int);
    &&& rows.len() == n + picked.len()
    &&& forall|i: int| 0 <= i < n ==> crew_row(#[trigger] rows[i], sessions[i], cx)
    &&& forall|k: int|
        0 <= k < picked.len() ==> crewless_row(
            #[trigger] rows[n + k],
            convoys[picked[k]],
            namespace,
            cx.host_name@,
            FleetStaleness::Local,
        )
}

/// The rows of this host, in list order.
pub fn local_fleet_rows(
    sessions: &Vec<TerminalSession>,
    convoys: &Vec<ConvoyRow>,
    namespace: &str,
    cx: &FleetContext,
) -> (r: Vec<FleetListRow>)
    ensures
        exists|rows: Seq<FleetListRow>|
            #[trigger] local_rows(rows, sessions@, convoys@, namespace@, *cx) && r@ == rank_sort(rows),
{
    let mut rows: Vec<FleetListRow> = Vec::new();
    let mut i: usize = 0;
    while i < sessions.len()
        invariant
            i <= sessions@.len(),
            rows@.len() == i,
            forall|k: int| 0 <= k < i ==> crew_row(#[trigger] rows@[k], sessions@[k], *cx),
        decreases sessions.len() - i,
    {
        rows.push(crew_row_of(&sessions[i], cx));
        i = i + 1;
    }
    let ghost crewed = rows@;
    append_crewless_convoy_rows(&mut rows, namespace, convoys, cx.host_name.as_str(), &FleetStaleness::Local);
    proof {
        assert forall|k: int| 0 <= k < crewed.len() implies crew_row(#[trigger] rows@[k], sessions@[k], *cx) by {
            assert(rows@[k] == rows@.take(crewed.len() as int)[k]);
        }
        assert(local_rows(rows@, sessions@, convoys@, namespace@, *cx));
    }
    sort_ranked(rows)
}

/// What is held of another host's last snapshot.
#[derive(Debug, PartialEq, Eq)]
pub struct FleetReplicaCacheEntry {
    pub rows: Vec<FleetListRow>,
    /// What else it knew, as it was sent.
    pub result_sets: Vec<Json>,
    pub last_sync: Option<Timestamp>,
    pub generation: Option<String>,
    pub skipped_records: usize,
    pub first_parse_error: Option<String>,
    pub last_error: Option<String>,
}

/// Unreachable after an error or before the first sync, else fresh or stale by age.
pub open spec fn staleness_of(entry: FleetReplicaCacheEntry, now: Timestamp, r: FleetStaleness) -> bool {
    match (entry.last_error, entry.last_sync) {
        (Some(message), last_sync) => r == (FleetStaleness::Unreachable { last_sync, message }),
        (None, None) => r matches FleetStaleness::Unreachable { last_sync, message } && last_sync is None
            && message@ == "replica has never synced"@,
        (None, Some(last_sync)) => r == (if elapsed_secs(now, last_sync) > FLEET_REPLICA_FRESH_SECS {
            FleetStaleness::Stale { last_sync }
        } else {
            FleetStaleness::Fresh { last_sync }
        }),
    }
}

pub fn replica_staleness(entry: &FleetReplicaCacheEntry, now: &Timestamp) -> (r: FleetStaleness)
    ensures
        staleness_of(*entry, *now, r),
{
    match &entry.last_error {
        Some(message) => FleetStaleness::Unreachable {
            last_sync: entry.last_sync,
            message: message.clone(),
        },
        None => match entry.last_sync {
            None => FleetStaleness::Unreachable {
                last_sync: None,
                message: "replica has never synced".to_owned(),
            },
            Some(last_sync) => {
                if now.seconds_since(&last_sync) > FLEET_REPLICA_FRESH_SECS {
                    FleetStaleness::Stale { last_sync }
                } else {
                    FleetStaleness::Fresh { last_sync }
                }
            },
        },
    }
}

} // verus!
