//! The health of each host of the fleet, and the queue of work to dispatch.
use vstd::prelude::*;

use crate::fleet::{FleetListRow, FleetReplicaCacheEntry, FLEET_REPLICA_FRESH_SECS};
use crate::model::{ConditionValue, ConnectionState, Provenance};
use crate::ordered::{strictly_sorted, OrderedMap, OrderedSet};
use crate::sorting::{rank_sort, sort_ranked, Ranked};
use crate::text::{
    concat3, holds, lemma_lex_asymmetric, lemma_lex_total, lemma_lex_transitive, lemma_strs_push, lex_le, lex_lt, opt,
    opt_clone, opt_eq, opt_is, str_eq, str_lt, strs, strs_hold,
};
use crate::time::{date_text, earlier, elapsed_secs, Timestamp};

verus! {

/// A condition a host reports of itself.
#[derive(Debug, PartialEq, Eq)]
pub struct HostCondition {
    pub condition_type: String,
    pub value: ConditionValue,
    pub reason: String,
    pub message: String,
    /// Whether the condition, as it stands, keeps the host from being ready.
    pub blocks_readiness: bool,
}

/// When one credential of a host runs out, as of now.
#[derive(Debug, PartialEq, Eq)]
pub struct CredentialReading {
    pub scope: String,
    /// The agent whose login this is, where the scope is the one that agents
    /// find on the host.
    pub ambient_login: Option<String>,
    /// Set where the credential has expired.
    pub expired_at: Option<Timestamp>,
    /// Set where it expires within the warning window.
    pub expires_at: Option<Timestamp>,
}

/// What a host last reported of itself.
#[derive(Debug, PartialEq, Eq)]
pub struct HostStatus {
    pub heartbeat_at: Option<Timestamp>,
    pub ready: bool,
    pub daemon_generation: Option<String>,
    pub daemon_version: Option<String>,
    pub daemon_started_at: Option<Timestamp>,
    pub disk_free_bytes: Option<u64>,
    pub admission_free_space_floor_bytes: Option<u64>,
    pub sleep_inhibition: Option<String>,
    pub conditions: Vec<HostCondition>,
    /// The credentials with an expiry; nothing where the report is unreadable.
    pub credentials: Option<Vec<CredentialReading>>,
}

#[derive(Debug, Clone, Copy, PartialEq, Eq, Structural)]
pub enum AttentionSeverity {
    Unreadable,
    Expired,
    Expiring,
}

/// A credential that wants looking after.
#[derive(Debug, PartialEq, Eq)]
pub struct CredentialAttention {
    pub severity: AttentionSeverity,
    pub message: String,
}

/// How a credential is named to an operator.
pub open spec fn credential_label(reading: CredentialReading) -> Seq<char> {
    match reading.ambient_login {
        Some(agent) => "ambient "@ + agent@ + " login"@,
        None => "credential `"@ + reading.scope@ + "`"@,
    }
}

/// The readings that want attention: expired ones, and those about to expire.
pub open spec fn attended(readings: Seq<CredentialReading>) -> Seq<CredentialReading> {
    readings.filter(|r: CredentialReading| r.expired_at is Some || r.expires_at is Some)
}

/// `a` calls for attention to one reading.
pub open spec fn attention_for(a: CredentialAttention, reading: CredentialReading) -> bool {
    match (reading.expired_at, reading.expires_at) {
        (Some(at), _) => a.severity == AttentionSeverity::Expired && a.message@ == credential_label(reading)
            + " expired on "@ + date_text(at.secs() as i64, at.nanos() as u32),
        (None, Some(at)) => a.severity == AttentionSeverity::Expiring && a.message@ == credential_label(
            reading,
        ) + " expires on "@ + date_text(at.secs() as i64, at.nanos() as u32),
        (None, None) => false,
    }
}

/// `r` calls for attention to what a host reports of its credentials.
pub open spec fn credentials_attended(r: Seq<CredentialAttention>, readings: Option<Vec<CredentialReading>>) -> bool {
    match readings {
        None => r.len() == 1 && r[0].severity == AttentionSeverity::Unreadable && r[0].message@
            == "credential expiry capability is unreadable"@,
        Some(readings) => {
            let wanted = attended(readings@);
            r.len() == wanted.len() && forall|i: int|
                0 <= i < r.len() ==> attention_for(#[trigger] r[i], wanted[i])
        },
    }
}

/// One entry per expired or near-expiry credential, in the order reported.
pub fn host_credential_attention(status: &HostStatus) -> (r: Vec<CredentialAttention>)
    ensures
        credentials_attended(r@, status.credentials),
{
    let mut r: Vec<CredentialAttention> = Vec::new();
    match &status.credentials {
        None => {
            r.push(
                CredentialAttention {
                    severity: AttentionSeverity::Unreadable,
                    message: "credential expiry capability is unreadable".to_owned(),
                },
            );
        },
        Some(readings) => {
            let ghost wants = |r: CredentialReading| r.expired_at is Some || r.expires_at is Some;
            let mut i: usize = 0;
            assert(readings@.take(0).filter(wants) =~= Seq::<CredentialReading>::empty()) by {
                reveal(Seq::filter);
            }
            while i < readings.len()
                invariant
                    i <= readings@.len(),
                    wants == (|r: CredentialReading| r.expired_at is Some || r.expires_at is Some),
                    r@.len() == readings@.take(i as int).filter(wants).len(),
                    forall|k: int|
                        0 <= k < r@.len() ==> attention_for(
                            #[trigger] r@[k],
                            readings@.take(i as int).filter(wants)[k],
                        ),
                decreases readings.len() - i,
            {
                let reading = &readings[i];
                let ghost before = readings@.take(i as int).filter(wants);
                let ghost held = r@;
                proof {
                    reveal(Seq::filter);
                    assert(readings@.take(i + 1).drop_last() =~= readings@.take(i as int));
                    assert(readings@.take(i + 1).last() == *reading);
                }
                let label = match &reading.ambient_login {
                    Some(agent) => concat3("ambient ", agent.as_str(), " login"),
                    None => concat3("credential `", reading.scope.as_str(), "`"),
                };
                if let Some(at) = reading.expired_at {
                    let day = at.to_date();
                    let message = concat3(label.as_str(), " expired on ", day.as_str());
                    r.push(CredentialAttention { severity: AttentionSeverity::Expired, message });
                } else if let Some(at) = reading.expires_at {
                    let day = at.to_date();
                    let message = concat3(label.as_str(), " expires on ", day.as_str());
                    r.push(CredentialAttention { severity: AttentionSeverity::Expiring, message });
                }
                proof {
                    let after = readings@.take(i + 1).filter(wants);
                    assert forall|k: int| 0 <= k < r@.len() implies attention_for(#[trigger] r@[k], after[k]) by {
                        if k < held.len() {
                            assert(r@[k] == held[k]);
                            assert(after[k] == before[k]);
                        }
                    }
                }
                i = i + 1;
            }
            assert(readings@.take(readings@.len() as int) =~= readings@);
        },
    }
    r
}

#[derive(Debug, Clone, Copy, PartialEq, Eq, Structural)]
pub enum ObservationAgreement {
    Agree,
    Disagree,
    Unknown,
}

/// Whether the link, the heartbeat and the two generations tell one story.
pub open spec fn agreement(
    link: ConnectionState,
    heartbeat: bool,
    heartbeat_fresh: bool,
    daemon_generation: Option<Seq<char>>,
    replica_generation: Option<Seq<char>>,
    is_local: bool,
) -> ObservationAgreement {
    let settling = link is Connecting || link is Reconnecting;
    let generations_differ = daemon_generation is Some && replica_generation is Some && daemon_generation
        != replica_generation;
    let link_differs = !settling && (link is Connected) != heartbeat_fresh;
    if is_local {
        ObservationAgreement::Agree
    } else if generations_differ || link_differs {
        ObservationAgreement::Disagree
    } else if !heartbeat || settling || daemon_generation is None || replica_generation is None {
        ObservationAgreement::Unknown
    } else {
        ObservationAgreement::Agree
    }
}

pub fn fleet_observation_agreement(
    link: &ConnectionState,
    heartbeat: bool,
    heartbeat_fresh: bool,
    daemon_generation: &Option<String>,
    replica_generation: &Option<String>,
    is_local: bool,
) -> (r: ObservationAgreement)
    ensures
        r == agreement(
            *link,
            heartbeat,
            heartbeat_fresh,
            opt(*daemon_generation),
            opt(*replica_generation),
            is_local,
        ),
{
    if is_local {
        return ObservationAgreement::Agree;
    }
    let generation_disagrees = daemon_generation.is_some() && replica_generation.is_some() && !opt_eq(
        daemon_generation,
        replica_generation,
    );
    let settling = match link {
        ConnectionState::Connecting | ConnectionState::Reconnecting => true,
        _ => false,
    };
    let link_disagrees = match link {
        ConnectionState::Connected => !heartbeat_fresh,
        ConnectionState::Disconnected | ConnectionState::Rejected { .. } => heartbeat_fresh,
        ConnectionState::Connecting | ConnectionState::Reconnecting => false,
    };
    if generation_disagrees || link_disagrees {
        ObservationAgreement::Disagree
    } else if !heartbeat || settling || daemon_generation.is_none() || replica_generation.is_none() {
        ObservationAgreement::Unknown
    } else {
        ObservationAgreement::Agree
    }
}

/// A host the registry lists.
pub struct HostListEntry {
    pub host_name: String,
    pub is_local: bool,
    pub configured: bool,
    pub connection: ConnectionState,
}

/// What is known of a host from the registry and the configuration.
#[derive(Debug, PartialEq, Eq)]
pub struct HostSeat {
    pub is_local: bool,
    pub configured: bool,
    pub link: ConnectionState,
}

/// The seats after the registry's entries: flags add up, and a host that is
/// connected once is connected.
pub open spec fn seats_listed(entries: Seq<HostListEntry>, configured: Seq<Seq<char>>) -> Map<Seq<char>, HostSeat>
    decreases entries.len(),
{
    if entries.len() == 0 {
        Map::empty()
    } else {
        let m = seats_listed(entries.drop_last(), configured);
        let e = entries.last();
        let named = e.configured || holds(configured, e.host_name@);
        if m.dom().contains(e.host_name@) {
            let seat = m[e.host_name@];
            m.insert(
                e.host_name@,
                HostSeat {
                    is_local: seat.is_local || e.is_local,
                    configured: seat.configured || named,
                    link: if e.connection is Connected {
                        ConnectionState::Connected
                    } else {
                        seat.link
                    },
                },
            )
        } else {
            m.insert(e.host_name@, HostSeat { is_local: e.is_local, configured: named, link: e.connection })
        }
    }
}

/// The seats after the configured hosts: one that the registry lacks is disconnected.
pub open spec fn seats_configured(m: Map<Seq<char>, HostSeat>, configured: Seq<Seq<char>>) -> Map<Seq<char>, HostSeat>
    decreases configured.len(),
{
    if configured.len() == 0 {
        m
    } else {
        let before = seats_configured(m, configured.drop_last());
        if before.dom().contains(configured.last()) {
            before
        } else {
            before.insert(
                configured.last(),
                HostSeat { is_local: false, configured: true, link: ConnectionState::Disconnected },
            )
        }
    }
}

/// All seats; this host has one in any case.
pub open spec fn all_seats(
    entries: Seq<HostListEntry>,
    configured: Seq<Seq<char>>,
    local: Seq<char>,
) -> Map<Seq<char>, HostSeat> {
    let m = seats_configured(seats_listed(entries, configured), configured);
    if m.dom().contains(local) {
        m
    } else {
        m.insert(local, HostSeat { is_local: true, configured: false, link: ConnectionState::Connected })
    }
}

pub fn host_seats(entries: &Vec<HostListEntry>, configured: &Vec<String>, local: &str) -> (r: OrderedMap<HostSeat>)
    ensures
        r@ == all_seats(entries@, strs(configured@), local@),
{
    let mut m: OrderedMap<HostSeat> = OrderedMap::new();
    let mut i: usize = 0;
    while i < entries.len()
        invariant
            i <= entries@.len(),
            m@ == seats_listed(entries@.take(i as int), strs(configured@)),
        decreases entries.len() - i,
    {
        let e = &entries[i];
        assert(entries@.take(i + 1).drop_last() =~= entries@.take(i as int));
        assert(entries@.take(i + 1).last() == *e);
        let named = e.configured || strs_hold(configured, e.host_name.as_str());
        let seat = match m.get(e.host_name.as_str()) {
            Some(seat) => HostSeat {
                is_local: seat.is_local || e.is_local,
                configured: seat.configured || named,
                link: match e.connection {
                    ConnectionState::Connected => ConnectionState::Connected,
                    _ => seat.link.copy(),
                },
            },
            None => HostSeat { is_local: e.is_local, configured: named, link: e.connection.copy() },
        };
        m.insert(e.host_name.clone(), seat);
        i = i + 1;
    }
    assert(entries@.take(entries@.len() as int) =~= entries@);
    let ghost listed = m@;
    let mut j: usize = 0;
    while j < configured.len()
        invariant
            j <= configured@.len(),
            m@ == seats_configured(listed, strs(configured@).take(j as int)),
        decreases configured.len() - j,
    {
        assert(strs(configured@).take(j + 1).drop_last() =~= strs(configured@).take(j as int));
        assert(strs(configured@).take(j + 1).last() == configured@[j as int]@);
        if !m.contains_key(configured[j].as_str()) {
            m.insert(
                configured[j].clone(),
                HostSeat { is_local: false, configured: true, link: ConnectionState::Disconnected },
            );
        }
        j = j + 1;
    }
    assert(strs(configured@).take(configured@.len() as int) =~= strs(configured@));
    if !m.contains_key(local) {
        m.insert(
            local.to_owned(),
            HostSeat { is_local: true, configured: false, link: ConnectionState::Connected },
        );
    }
    m
}

/// A host record, and what is known of the peer it came from.
pub struct HostReport {
    pub name: String,
    pub provenance: Provenance,
    /// The host the origin's canonical environment runs on.
    pub origin_host_id: Option<String>,
    /// The name the registry has for the origin.
    pub origin_name: Option<String>,
    /// The name the configuration has for the origin.
    pub origin_configured_name: Option<String>,
    pub status: Option<HostStatus>,
}

/// The host a record speaks for. A record of this daemon's own speaks for this
/// host; a replica speaks for its origin only where it is the origin's report
/// of itself, since an origin replicates every host it has seen.
pub open spec fn reporter(report: HostReport, local_host_id: Option<Seq<char>>, local: Seq<char>) -> Option<Seq<char>> {
    match report.provenance {
        Provenance::Local => if local_host_id == Some(report.name@) {
            Some(local)
        } else {
            None
        },
        Provenance::Replica { .. } => if opt(report.origin_host_id) == Some(report.name@) {
            match report.origin_name {
                Some(name) => Some(name@),
                None => opt(report.origin_configured_name),
            }
        } else {
            None
        },
    }
}

pub fn reporting_host(report: &HostReport, local_host_id: &Option<String>, local: &str) -> (r: Option<String>)
    ensures
        opt(r) == reporter(*report, opt(*local_host_id), local@),
{
    match &report.provenance {
        Provenance::Local => {
            if opt_is(local_host_id, report.name.as_str()) {
                Some(local.to_owned())
            } else {
                None
            }
        },
        Provenance::Replica { .. } => {
            if opt_is(&report.origin_host_id, report.name.as_str()) {
                match &report.origin_name {
                    Some(name) => Some(name.clone()),
                    None => opt_clone(&report.origin_configured_name),
                }
            } else {
                None
            }
        },
    }
}

/// No heartbeat comes before any, and an earlier one before a later one.
pub open spec fn heartbeat_before(a: Option<Timestamp>, b: Option<Timestamp>) -> bool {
    match (a, b) {
        (None, Some(_)) => true,
        (Some(a), Some(b)) => earlier(a, b),
        (_, None) => false,
    }
}

/// Which report counts for a host: the first among those with the latest heartbeat.
pub open spec fn chosen_report(
    reports: Seq<HostReport>,
    local_host_id: Option<Seq<char>>,
    local: Seq<char>,
    host: Seq<char>,
) -> Option<int>
    decreases reports.len(),
{
    if reports.len() == 0 {
        None
    } else {
        let before = chosen_report(reports.drop_last(), local_host_id, local, host);
        let last = reports.last();
        if reporter(last, local_host_id, local) == Some(host) && last.status is Some && (before is None
            || heartbeat_before(
            reports[before->0].status->0.heartbeat_at,
            last.status->0.heartbeat_at,
        )) {
            Some(reports.len() - 1)
        } else {
            before
        }
    }
}

proof fn lemma_chosen(reports: Seq<HostReport>, local_host_id: Option<Seq<char>>, local: Seq<char>, host: Seq<char>)
    ensures
        chosen_report(reports, local_host_id, local, host) matches Some(i) ==> 0 <= i < reports.len()
            && reports[i].status is Some,
    decreases reports.len(),
{
    if reports.len() > 0 {
        lemma_chosen(reports.drop_last(), local_host_id, local, host);
        if let Some(i) = chosen_report(reports.drop_last(), local_host_id, local, host) {
            assert(reports.drop_last()[i] == reports[i]);
        }
    }
}

/// The status that counts for a host.
pub open spec fn host_status(
    reports: Seq<HostReport>,
    local_host_id: Option<Seq<char>>,
    local: Seq<char>,
    host: Seq<char>,
) -> Option<HostStatus> {
    match chosen_report(reports, local_host_id, local, host) {
        Some(i) => reports[i].status,
        None => None,
    }
}

fn find_status<'a>(
    reports: &'a Vec<HostReport>,
    local_host_id: &Option<String>,
    local: &str,
    host: &str,
) -> (r: Option<&'a HostStatus>)
    ensures
        match r {
            Some(s) => host_status(reports@, opt(*local_host_id), local@, host@) == Some(*s),
            None => host_status(reports@, opt(*local_host_id), local@, host@) is None,
        },
{
    let mut best: Option<usize> = None;
    let mut i: usize = 0;
    while i < reports.len()
        invariant
            i <= reports@.len(),
            match best {
                Some(b) => b < i && reports@[b as int].status is Some && chosen_report(
                    reports@.take(i as int),
                    opt(*local_host_id),
                    local@,
                    host@,
                ) == Some(b as int),
                None => chosen_report(reports@.take(i as int), opt(*local_host_id), local@, host@) is None,
            },
        decreases reports.len() - i,
    {
        let report = &reports[i];
        assert(reports@.take(i + 1).drop_last() =~= reports@.take(i as int));
        assert(reports@.take(i + 1).last() == *report);
        let speaks = reporting_host(report, local_host_id, local);
        if opt_is(&speaks, host) {
            if let Some(status) = &report.status {
                let replace = match best {
                    None => true,
                    Some(b) => {
                        assert(reports@.take(i + 1)[b as int] == reports@[b as int]);
                        match &reports[b].status {
                            None => false,
                            Some(current) => match (current.heartbeat_at, status.heartbeat_at) {
                                (None, Some(_)) => true,
                                (Some(a), Some(c)) => a.is_before(&c),
                                (_, None) => false,
                            },
                        }
                    },
                };
                if replace {
                    best = Some(i);
                }
            }
        }
        i = i + 1;
    }
    assert(reports@.take(reports@.len() as int) =~= reports@);
    match best {
        Some(b) => reports[b].status.as_ref(),
        None => None,
    }
}

/// The rows behind a list of references.
pub open spec fn rows_of(rows: Seq<&FleetListRow>) -> Seq<FleetListRow> {
    rows.map_values(|r: &FleetListRow| *r)
}

/// How many rows list a crew member on the host.
pub open spec fn crews_on(rows: Seq<FleetListRow>, host: Seq<char>) -> int
    decreases rows.len(),
{
    if rows.len() == 0 {
        0
    } else {
        crews_on(rows.drop_last(), host) + (if rows.last().host@ == host && rows.last().crew@ != "-"@ {
            1int
        } else {
            0
        })
    }
}

/// The convoys that rows list on the host.
pub open spec fn convoys_on(rows: Seq<FleetListRow>, host: Seq<char>) -> Set<Seq<char>>
    decreases rows.len(),
{
    if rows.len() == 0 {
        Set::empty()
    } else if rows.last().host@ == host && rows.last().convoy@ != "-"@ {
        convoys_on(rows.drop_last(), host).insert(rows.last().convoy@)
    } else {
        convoys_on(rows.drop_last(), host)
    }
}

/// The crews and the convoys that rows list on the host.
pub fn accumulate_fleet_health_counts(rows: &Vec<&FleetListRow>, host: &str) -> (r: (usize, usize))
    ensures
        r.0 == crews_on(rows_of(rows@), host@),
        r.1 == convoys_on(rows_of(rows@), host@).len(),
{
    let mut crews: usize = 0;
    let mut convoys = OrderedSet::new();
    let mut i: usize = 0;
    while i < rows.len()
        invariant
            i <= rows@.len(),
            crews == crews_on(rows_of(rows@).take(i as int), host@),
            crews <= i,
            convoys@ == convoys_on(rows_of(rows@).take(i as int), host@),
        decreases rows.len() - i,
    {
        let row = rows[i];
        assert(rows_of(rows@).take(i + 1).drop_last() =~= rows_of(rows@).take(i as int));
        assert(rows_of(rows@).take(i + 1).last() == *row);
        if str_eq(row.host.as_str(), host) {
            if !str_eq(row.crew.as_str(), "-") {
                crews = crews + 1;
            }
            if !str_eq(row.convoy.as_str(), "-") {
                let _ = convoys.insert(row.convoy.clone());
            }
        }
        i = i + 1;
    }
    assert(rows_of(rows@).take(rows@.len() as int) =~= rows_of(rows@));
    (crews, convoys.len())
}

#[derive(Debug, Clone, Copy, PartialEq, Eq, Structural)]
pub enum HostStaleness {
    Current,
    Stale,
    Unknown,
}

/// One host of the fleet.
#[derive(Debug, PartialEq, Eq)]
pub struct FleetHostRow {
    pub host: String,
    pub is_local: bool,
    pub configured: bool,
    pub link: ConnectionState,
    pub daemon_generation: Option<String>,
    pub daemon_version: Option<String>,
    pub daemon_uptime_seconds: Option<u64>,
    pub heartbeat_at: Option<Timestamp>,
    pub replica_last_sync: Option<Timestamp>,
    pub replica_generation: Option<String>,
    pub crew_count: usize,
    pub convoy_count: usize,
    pub disk_free_bytes: Option<u64>,
    pub sleep_inhibition: Option<String>,
    pub staleness: HostStaleness,
    pub observation_agreement: ObservationAgreement,
    pub degraded_conditions: Vec<String>,
    pub credential_attention: Vec<CredentialAttention>,
}

/// This host first, the others by name.
impl Ranked for FleetHostRow {
    open spec fn ranks_before(self, other: Self) -> bool {
        if self.is_local != other.is_local {
            self.is_local
        } else {
            lex_le(self.host@, other.host@)
        }
    }

    proof fn ranks_total(a: Self, b: Self) {
        lemma_lex_total(a.host@, b.host@);
        if lex_lt(a.host@, b.host@) {
            lemma_lex_asymmetric(a.host@, b.host@);
        }
    }

    proof fn ranks_transitive(a: Self, b: Self, c: Self) {
        lemma_lex_total(b.host@, a.host@);
        lemma_lex_total(c.host@, b.host@);
        if lex_lt(c.host@, a.host@) && lex_lt(a.host@, b.host@) {
            lemma_lex_transitive(c.host@, a.host@, b.host@);
        }
    }

    fn rank_before(&self, other: &Self) -> (r: bool) {
        if self.is_local != other.is_local {
            self.is_local
        } else {
            !str_lt(other.host.as_str(), self.host.as_str())
        }
    }
}

/// `type: message` of each condition that is false.
pub open spec fn degraded_lines(conditions: Seq<HostCondition>) -> Seq<Seq<char>>
    decreases conditions.len(),
{
    if conditions.len() == 0 {
        Seq::empty()
    } else {
        let before = degraded_lines(conditions.drop_last());
        let last = conditions.last();
        if last.value == ConditionValue::False {
            before.push(last.condition_type@ + ": "@ + last.message@)
        } else {
            before
        }
    }
}

fn degraded(conditions: &Vec<HostCondition>) -> (r: Vec<String>)
    ensures
        strs(r@) == degraded_lines(conditions@),
{
    let mut r: Vec<String> = Vec::new();
    let mut i: usize = 0;
    assert(strs(r@) =~= degraded_lines(conditions@.take(0)));
    while i < conditions.len()
        invariant
            i <= conditions@.len(),
            strs(r@) == degraded_lines(conditions@.take(i as int)),
        decreases conditions.len() - i,
    {
        let c = &conditions[i];
        assert(conditions@.take(i + 1).drop_last() =~= conditions@.take(i as int));
        assert(conditions@.take(i + 1).last() == *c);
        match c.value {
            ConditionValue::False => {
                let line = concat3(c.condition_type.as_str(), ": ", c.message.as_str());
                proof {
                    lemma_strs_push(r@, line);
                }
                r.push(line);
            },
            _ => {},
        }
        i = i + 1;
    }
    assert(conditions@.take(conditions@.len() as int) =~= conditions@);
    r
}

/// Whether the heartbeat is no older than the given seconds.
pub open spec fn heartbeat_is_fresh(at: Option<Timestamp>, now: Timestamp, ttl: i64) -> bool {
    at is Some && elapsed_secs(now, at->0) <= ttl
}

/// Whether what is known of a host's rows is up to date.
pub open spec fn replica_is_fresh(is_local: bool, replica: Option<FleetReplicaCacheEntry>, now: Timestamp) -> bool {
    is_local || (replica is Some && replica->0.last_error is None && replica->0.last_sync is Some && elapsed_secs(
        now,
        replica->0.last_sync->0,
    ) <= FLEET_REPLICA_FRESH_SECS)
}

/// The generation the status reports.
pub open spec fn reported_generation(status: Option<HostStatus>) -> Option<String> {
    match status {
        Some(s) => s.daemon_generation,
        None => None,
    }
}

/// The generation the rows came from.
pub open spec fn rows_generation(is_local: bool, status: Option<HostStatus>, replica: Option<FleetReplicaCacheEntry>) -> Option<String> {
    if is_local {
        reported_generation(status)
    } else {
        match replica {
            Some(entry) => entry.generation,
            None => None,
        }
    }
}

/// `row` reports one host.
pub open spec fn host_row(
    row: FleetHostRow,
    host: Seq<char>,
    seat: HostSeat,
    status: Option<HostStatus>,
    replica: Option<FleetReplicaCacheEntry>,
    rows: Seq<FleetListRow>,
    now: Timestamp,
    ttl: i64,
) -> bool {
    let heartbeat = match status {
        Some(s) => s.heartbeat_at,
        None => None,
    };
    let beats = heartbeat_is_fresh(heartbeat, now, ttl);
    let synced = match replica {
        Some(entry) => entry.last_sync,
        None => None,
    };
    &&& row.host@ == host
    &&& row.is_local == seat.is_local
    &&& row.configured == seat.configured
    &&& row.link == seat.link
    &&& row.daemon_generation == reported_generation(status)
    &&& row.daemon_version == (match status {
        Some(s) => s.daemon_version,
        None => None,
    })
    &&& match status {
        Some(s) => match s.daemon_started_at {
            Some(at) => row.daemon_uptime_seconds == Some(
                (if elapsed_secs(now, at) > 0 {
                    elapsed_secs(now, at)
                } else {
                    0
                }) as u64,
            ),
            None => row.daemon_uptime_seconds is None,
        },
        None => row.daemon_uptime_seconds is None,
    }
    &&& row.heartbeat_at == heartbeat
    &&& row.replica_last_sync == (if seat.is_local {
        Some(now)
    } else {
        synced
    })
    &&& row.replica_generation == rows_generation(seat.is_local, status, replica)
    &&& row.crew_count == crews_on(rows, host)
    &&& row.convoy_count == convoys_on(rows, host).len()
    &&& row.disk_free_bytes == (match status {
        Some(s) => s.disk_free_bytes,
        None => None,
    })
    &&& row.sleep_inhibition == (match status {
        Some(s) => s.sleep_inhibition,
        None => None,
    })
    &&& row.staleness == (if beats && replica_is_fresh(seat.is_local, replica, now) {
        HostStaleness::Current
    } else if heartbeat is Some || synced is Some {
        HostStaleness::Stale
    } else {
        HostStaleness::Unknown
    })
    &&& row.observation_agreement == agreement(
        seat.link,
        heartbeat is Some,
        beats,
        opt(reported_generation(status)),
        opt(rows_generation(seat.is_local, status, replica)),
        seat.is_local,
    )
    &&& strs(row.degraded_conditions@) == (match status {
        Some(s) => degraded_lines(s.conditions@),
        None => Seq::empty(),
    })
    &&& match status {
        Some(s) => credentials_attended(row.credential_attention@, s.credentials),
        None => row.credential_attention@.len() == 0,
    }
}

/// The row of one host.
pub fn fleet_host_row(
    host: &str,
    seat: &HostSeat,
    status: Option<&HostStatus>,
    replica: Option<&FleetReplicaCacheEntry>,
    rows: &Vec<&FleetListRow>,
    now: &Timestamp,
    heartbeat_ttl_secs: i64,
) -> (row: FleetHostRow)
    ensures
        host_row(
            row,
            host@,
            *seat,
            (match status {
                Some(s) => Some(*s),
                None => None,
            }),
            (match replica {
                Some(e) => Some(*e),
                None => None,
            }),
            rows_of(rows@),
            *now,
            heartbeat_ttl_secs,
        ),
{
    let heartbeat_at = match status {
        Some(s) => s.heartbeat_at,
        None => None,
    };
    let heartbeat_fresh = match heartbeat_at {
        Some(at) => now.seconds_since(&at) <= heartbeat_ttl_secs,
        None => false,
    };
    let last_sync = match replica {
        Some(entry) => entry.last_sync,
        None => None,
    };
    let replica_fresh = seat.is_local || match replica {
        Some(entry) => entry.last_error.is_none() && match entry.last_sync {
            Some(at) => now.seconds_since(&at) <= FLEET_REPLICA_FRESH_SECS,
            None => false,
        },
        None => false,
    };
    let daemon_generation = match status {
        Some(s) => opt_clone(&s.daemon_generation),
        None => None,
    };
    let replica_generation = if seat.is_local {
        opt_clone(&daemon_generation)
    } else {
        match replica {
            Some(entry) => opt_clone(&entry.generation),
            None => None,
        }
    };
    let staleness = if heartbeat_fresh && replica_fresh {
        HostStaleness::Current
    } else if heartbeat_at.is_some() || last_sync.is_some() {
        HostStaleness::Stale
    } else {
        HostStaleness::Unknown
    };
    let observation_agreement = fleet_observation_agreement(
        &seat.link,
        heartbeat_at.is_some(),
        heartbeat_fresh,
        &daemon_generation,
        &replica_generation,
        seat.is_local,
    );
    let (crew_count, convoy_count) = accumulate_fleet_health_counts(rows, host);
    let daemon_uptime_seconds: Option<u64> = match status {
        Some(s) => match s.daemon_started_at {
            Some(at) => {
                let age: i64 = now.seconds_since(&at);
                if age > 0 {
                    Some(age as u64)
                } else {
                    Some(0)
                }
            },
            None => None,
        },
        None => None,
    };
    let degraded_conditions: Vec<String> = match status {
        Some(s) => degraded(&s.conditions),
        None => Vec::new(),
    };
    let credential_attention: Vec<CredentialAttention> = match status {
        Some(s) => host_credential_attention(s),
        None => Vec::new(),
    };
    assert(status is None ==> strs(degraded_conditions@) =~= Seq::empty());
    FleetHostRow {
        host: host.to_owned(),
        is_local: seat.is_local,
        configured: seat.configured,
        link: seat.link.copy(),
        daemon_generation,
        daemon_version: match status {
            Some(s) => opt_clone(&s.daemon_version),
            None => None,
        },
        daemon_uptime_seconds,
        heartbeat_at,
        replica_last_sync: if seat.is_local {
            Some(*now)
        } else {
            last_sync
        },
        replica_generation,
        crew_count,
        convoy_count,
        disk_free_bytes: match status {
            Some(s) => s.disk_free_bytes,
            None => None,
        },
        sleep_inhibition: match status {
            Some(s) => opt_clone(&s.sleep_inhibition),
            None => None,
        },
        staleness,
        observation_agreement,
        degraded_conditions,
        credential_attention,
    }
}

/// What the health of the fleet is read from.
pub struct FleetHealthInput {
    pub hosts: Vec<HostListEntry>,
    pub configured_hosts: Vec<String>,
    pub host_name: String,
    pub local_host_id: Option<String>,
    pub reports: Vec<HostReport>,
    pub local_rows: Vec<FleetListRow>,
    pub replicas: OrderedMap<FleetReplicaCacheEntry>,
    pub heartbeat_ttl_secs: i64,
}

/// The rows of each replica in turn, in host order.
pub open spec fn replica_rows(replicas: OrderedMap<FleetReplicaCacheEntry>, n: int) -> Seq<FleetListRow>
    decreases n,
{
    if n <= 0 {
        Seq::empty()
    } else {
        replica_rows(replicas, n - 1) + replicas@[replicas.keys()[n - 1]].rows@
    }
}

/// The local rows, and the rows of every replica.
pub open spec fn known_rows(input: FleetHealthInput) -> Seq<FleetListRow> {
    input.local_rows@ + replica_rows(input.replicas, input.replicas.keys().len() as int)
}

fn gather_rows<'a>(input: &'a FleetHealthInput) -> (r: Vec<&'a FleetListRow>)
    ensures
        rows_of(r@) == known_rows(*input),
{
    let mut r: Vec<&'a FleetListRow> = Vec::new();
    let mut i: usize = 0;
    while i < input.local_rows.len()
        invariant
            i <= input.local_rows@.len(),
            rows_of(r@) =~= input.local_rows@.take(i as int),
        decreases input.local_rows.len() - i,
    {
        let ghost was = rows_of(r@);
        r.push(&input.local_rows[i]);
        assert(rows_of(r@) =~= was.push(input.local_rows@[i as int]));
        i = i + 1;
    }
    assert(rows_of(r@) =~= input.local_rows@);
    let n: usize = input.replicas.len();
    let mut k: usize = 0;
    while k < n
        invariant
            k <= n,
            n == input.replicas.keys().len(),
            rows_of(r@) =~= input.local_rows@ + replica_rows(input.replicas, k as int),
        decreases n - k,
    {
        let entry = input.replicas.value(k);
        let ghost before = rows_of(r@);
        let mut j: usize = 0;
        while j < entry.rows.len()
            invariant
                j <= entry.rows@.len(),
                rows_of(r@) =~= before + entry.rows@.take(j as int),
            decreases entry.rows.len() - j,
        {
            let ghost was = rows_of(r@);
            r.push(&entry.rows[j]);
            assert(rows_of(r@) =~= was.push(entry.rows@[j as int]));
            j = j + 1;
        }
        assert(entry.rows@.take(entry.rows@.len() as int) =~= entry.rows@);
        k = k + 1;
    }
    r
}

/// `rows` reports each seat's host in turn.
pub open spec fn health_rows(rows: Seq<FleetHostRow>, hosts: Seq<Seq<char>>, input: FleetHealthInput, now: Timestamp) -> bool {
    let seats = all_seats(input.hosts@, strs(input.configured_hosts@), input.host_name@);
    &&& strictly_sorted(hosts)
    &&& forall|h: Seq<char>| #[trigger] holds(hosts, h) <==> seats.dom().contains(h)
    &&& rows.len() == hosts.len()
    &&& forall|i: int|
        0 <= i < rows.len() ==> host_row(
            #[trigger] rows[i],
            hosts[i],
            seats[hosts[i]],
            host_status(input.reports@, opt(input.local_host_id), input.host_name@, hosts[i]),
            if input.replicas@.dom().contains(hosts[i]) {
                Some(input.replicas@[hosts[i]])
            } else {
                None
            },
            known_rows(input),
            now,
            input.heartbeat_ttl_secs,
        )
}

/// The health of every host that is listed, configured or this one.
pub fn fleet_health(input: &FleetHealthInput, now: &Timestamp) -> (r: Vec<FleetHostRow>)
    ensures
        exists|rows: Seq<FleetHostRow>, hosts: Seq<Seq<char>>|
            #[trigger] health_rows(rows, hosts, *input, *now) && r@ == rank_sort(rows),
{
    let seats = host_seats(&input.hosts, &input.configured_hosts, input.host_name.as_str());
    let known = gather_rows(input);
    let mut rows: Vec<FleetHostRow> = Vec::new();
    let n: usize = seats.len();
    let mut i: usize = 0;
    while i < n
        invariant
            i <= n,
            n == seats.keys().len(),
            seats@ == all_seats(input.hosts@, strs(input.configured_hosts@), input.host_name@),
            rows_of(known@) == known_rows(*input),
            rows@.len() == i,
            forall|k: int|
                0 <= k < i ==> host_row(
                    #[trigger] rows@[k],
                    seats.keys()[k],
                    seats@[seats.keys()[k]],
                    host_status(
                        input.reports@,
                        opt(input.local_host_id),
                        input.host_name@,
                        seats.keys()[k],
                    ),
                    if input.replicas@.dom().contains(seats.keys()[k]) {
                        Some(input.replicas@[seats.keys()[k]])
                    } else {
                        None
                    },
                    known_rows(*input),
                    *now,
                    input.heartbeat_ttl_secs,
                ),
        decreases n - i,
    {
        let host = seats.key(i);
        let seat = seats.value(i);
        let status = find_status(
            &input.reports,
            &input.local_host_id,
            input.host_name.as_str(),
            host.as_str(),
        );
        let replica = input.replicas.get(host.as_str());
        rows.push(
            fleet_host_row(host.as_str(), seat, status, replica, &known, now, input.heartbeat_ttl_secs),
        );
        i = i + 1;
    }
    proof {
        assert forall|h: Seq<char>| #[trigger] holds(seats.keys(), h) <==> seats@.dom().contains(h) by {
            if holds(seats.keys(), h) {
                let k = choose|k: int| 0 <= k < seats.keys().len() && #[trigger] seats.keys()[k] == h;
                assert(seats@.dom().contains(seats.keys()[k]));
            }
        }
        assert(health_rows(rows@, seats.keys(), *input, *now));
    }
    sort_ranked(rows)
}

/// A piece of work that waits to be dispatched.
#[derive(Debug, PartialEq, Eq)]
pub struct DispatchQueueRow {
    pub namespace: String,
    pub project: String,
    pub issue: String,
    pub title: String,
    pub ready_observed_at: Timestamp,
    pub age_seconds: u64,
    pub attention: bool,
    /// Where the entry came from.
    pub provenance: String,
}

/// By namespace, project, time and issue.
impl Ranked for DispatchQueueRow {
    open spec fn ranks_before(self, other: Self) -> bool {
        if self.namespace@ != other.namespace@ {
            lex_lt(self.namespace@, other.namespace@)
        } else if self.project@ != other.project@ {
            lex_lt(self.project@, other.project@)
        } else if earlier(self.ready_observed_at, other.ready_observed_at) {
            true
        } else if earlier(other.ready_observed_at, self.ready_observed_at) {
            false
        } else {
            lex_le(self.issue@, other.issue@)
        }
    }

    proof fn ranks_total(a: Self, b: Self) {
        lemma_lex_total(a.namespace@, b.namespace@);
        lemma_lex_total(a.project@, b.project@);
        lemma_lex_total(a.issue@, b.issue@);
        if lex_lt(a.issue@, b.issue@) {
            lemma_lex_asymmetric(a.issue@, b.issue@);
        }
    }

    proof fn ranks_transitive(a: Self, b: Self, c: Self) {
        if a.namespace@ != b.namespace@ && b.namespace@ != c.namespace@ {
            lemma_lex_transitive(a.namespace@, b.namespace@, c.namespace@);
            lemma_lex_asymmetric(a.namespace@, c.namespace@);
        }
        if a.project@ != b.project@ && b.project@ != c.project@ && lex_lt(a.project@, b.project@) && lex_lt(b.project@, c.project@) {
            lemma_lex_transitive(a.project@, b.project@, c.project@);
            lemma_lex_asymmetric(a.project@, c.project@);
        }
        lemma_lex_total(b.issue@, a.issue@);
        lemma_lex_total(c.issue@, b.issue@);
        if lex_lt(c.issue@, a.issue@) && lex_lt(a.issue@, b.issue@) {
            lemma_lex_transitive(c.issue@, a.issue@, b.issue@);
        }
    }

    fn rank_before(&self, other: &Self) -> (r: bool) {
        if !str_eq(self.namespace.as_str(), other.namespace.as_str()) {
            str_lt(self.namespace.as_str(), other.namespace.as_str())
        } else if !str_eq(self.project.as_str(), other.project.as_str()) {
            str_lt(self.project.as_str(), other.project.as_str())
        } else if self.ready_observed_at.is_before(&other.ready_observed_at) {
            true
        } else if other.ready_observed_at.is_before(&self.ready_observed_at) {
            false
        } else {
            !str_lt(other.issue.as_str(), self.issue.as_str())
        }
    }
}

/// An entry of a project's dispatch queue.
pub struct QueueEntry {
    pub issue: String,
    pub title: String,
    pub ready_observed_at: Timestamp,
    /// Where the entry came from.
    pub provenance: String,
}

/// A project with its queue, where it has a status.
pub struct QueuedProject {
    pub namespace: String,
    pub name: String,
    pub queue: Option<ProjectQueue>,
}

pub struct ProjectQueue {
    pub attention: bool,
    pub entries: Vec<QueueEntry>,
}

/// The entries that are listed, each with its project.
pub open spec fn queued(projects: Seq<QueuedProject>, filter: Option<Seq<char>>) -> Seq<(QueuedProject, QueueEntry)>
    decreases projects.len(),
{
    if projects.len() == 0 {
        Seq::empty()
    } else {
        let before = queued(projects.drop_last(), filter);
        let p = projects.last();
        match p.queue {
            Some(queue) => if filter is None || filter == Some(p.name@) {
                before + queue.entries@.map_values(|e: QueueEntry| (p, e))
            } else {
                before
            },
            None => before,
        }
    }
}

/// `row` lists one entry.
pub open spec fn queue_row(row: DispatchQueueRow, source: (QueuedProject, QueueEntry), now: Timestamp) -> bool {
    let age = elapsed_secs(now, source.1.ready_observed_at);
    &&& row.namespace@ == source.0.namespace@
    &&& row.project@ == source.0.name@
    &&& row.issue@ == source.1.issue@
    &&& row.title@ == source.1.title@
    &&& row.ready_observed_at == source.1.ready_observed_at
    &&& row.age_seconds == (if age > 0 {
        age
    } else {
        0
    })
    &&& row.attention == source.0.queue->0.attention
    &&& row.provenance@ == source.1.provenance@
}

/// `rows` lists each entry in turn.
pub open spec fn queue_rows(rows: Seq<DispatchQueueRow>, sources: Seq<(QueuedProject, QueueEntry)>, now: Timestamp) -> bool {
    &&& rows.len() == sources.len()
    &&& forall|i: int| 0 <= i < rows.len() ==> queue_row(#[trigger] rows[i], sources[i], now)
}

/// The work that waits, of one project or of all.
pub fn dispatch_queue(projects: &Vec<QueuedProject>, project_filter: &Option<String>, now: &Timestamp) -> (r: Vec<DispatchQueueRow>)
    ensures
        exists|rows: Seq<DispatchQueueRow>|
            #[trigger] queue_rows(rows, queued(projects@, opt(*project_filter)), *now) && r@ == rank_sort(rows),
{
    let mut rows: Vec<DispatchQueueRow> = Vec::new();
    let mut i: usize = 0;
    while i < projects.len()
        invariant
            i <= projects@.len(),
            queue_rows(rows@, queued(projects@.take(i as int), opt(*project_filter)), *now),
        decreases projects.len() - i,
    {
        let p = &projects[i];
        assert(projects@.take(i + 1).drop_last() =~= projects@.take(i as int));
        assert(projects@.take(i + 1).last() == *p);
        let wanted = project_filter.is_none() || opt_is(project_filter, p.name.as_str());
        if wanted {
            if let Some(queue) = &p.queue {
                let ghost before = queued(projects@.take(i as int), opt(*project_filter));
                let ghost more = queue.entries@.map_values(|e: QueueEntry| (*p, e));
                let mut j: usize = 0;
                assert(before + more.take(0) =~= before);
                while j < queue.entries.len()
                    invariant
                        j <= queue.entries@.len(),
                        p.queue == Some(*queue),
                        more == queue.entries@.map_values(|e: QueueEntry| (*p, e)),
                        queue_rows(rows@, before + more.take(j as int), *now),
                    decreases queue.entries.len() - j,
                {
                    let e = &queue.entries[j];
                    let age: i64 = now.seconds_since(&e.ready_observed_at);
                    let age_seconds: u64 = if age > 0 {
                        age as u64
                    } else {
                        0
                    };
                    rows.push(
                        DispatchQueueRow {
                            namespace: p.namespace.clone(),
                            project: p.name.clone(),
                            issue: e.issue.clone(),
                            title: e.title.clone(),
                            ready_observed_at: e.ready_observed_at,
                            age_seconds,
                            attention: queue.attention,
                            provenance: e.provenance.clone(),
                        },
                    );
                    assert(before + more.take(j + 1) =~= (before + more.take(j as int)).push(more[j as int]));
                    j = j + 1;
                }
                assert(more.take(queue.entries@.len() as int) =~= more);
            }
        }
        i = i + 1;
    }
    assert(projects@.take(projects@.len() as int) =~= projects@);
    sort_ranked(rows)
}

} // verus!
