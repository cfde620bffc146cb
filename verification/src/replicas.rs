//! Replicas of other hosts: how they are fetched, cached, listed and reported.
use vstd::prelude::*;

use crate::attach_route::{arg, AttachArg};
use crate::fleet::{replica_staleness, staleness_of, FleetListRow, FleetReplicaCacheEntry, FleetStaleness};
use crate::model::share_opt;
use crate::ordered::{strictly_sorted, text_map, OrderedMap, OrderedSet};
use crate::resources::Json;
use crate::sorting::{rank_sort, sort_ranked, Ranked};
use crate::text::{
    concat2, concat3, concat4, decimal, decimal_str, holds, join, join_strs, lemma_lex_asymmetric, lemma_lex_total,
    lemma_lex_transitive, lemma_strs_push, lex_le, opt, opt_clone, opt_str, str_eq, str_lt, strs, strs_hold,
};
use crate::time::Timestamp;

verus! {

/// A kind of resource that failed to replicate from a peer, and why.
#[derive(Debug, PartialEq, Eq)]
pub struct ResourceReplicationFailure {
    pub kind: String,
    pub message: String,
}

/// `kind: message` for each failure.
pub open spec fn failure_lines(failures: Seq<ResourceReplicationFailure>) -> Seq<Seq<char>> {
    failures.map_values(|f: ResourceReplicationFailure| f.kind@ + ": "@ + f.message@)
}

/// One line for all failures; nothing where there are none.
pub open spec fn failure_message(failures: Seq<ResourceReplicationFailure>) -> Option<Seq<char>> {
    if failures.len() == 0 {
        None
    } else {
        Some("resource replication failed: "@ + join(failure_lines(failures), "; "@))
    }
}

pub fn format_resource_replication_failures(failures: &Vec<ResourceReplicationFailure>) -> (r: Option<String>)
    ensures
        opt(r) == failure_message(failures@),
{
    if failures.len() == 0 {
        return None;
    }
    let mut lines: Vec<String> = Vec::new();
    let mut i: usize = 0;
    while i < failures.len()
        invariant
            i <= failures@.len(),
            strs(lines@) =~= failure_lines(failures@.take(i as int)),
        decreases failures.len() - i,
    {
        let line = concat3(failures[i].kind.as_str(), ": ", failures[i].message.as_str());
        proof {
            lemma_strs_push(lines@, line);
        }
        lines.push(line);
        i = i + 1;
    }
    assert(failures@.take(failures@.len() as int) =~= failures@);
    let joined = join_strs(&lines, "; ");
    Some(concat2("resource replication failed: ", joined.as_str()))
}

/// Both messages, or the one there is.
pub open spec fn joined_errors(first: Option<Seq<char>>, second: Option<Seq<char>>) -> Option<Seq<char>> {
    match (first, second) {
        (Some(a), Some(b)) => Some(a + "; "@ + b),
        (Some(a), None) => Some(a),
        (None, b) => b,
    }
}

pub fn join_replica_errors(first: Option<&str>, second: Option<&str>) -> (r: Option<String>)
    ensures
        opt(r) == joined_errors(opt_str(first), opt_str(second)),
{
    match (first, second) {
        (Some(first), Some(second)) => Some(concat3(first, "; ", second)),
        (Some(message), None) => Some(message.to_owned()),
        (None, Some(message)) => Some(message.to_owned()),
        (None, None) => None,
    }
}

/// What was left out of a snapshot that could be read only in part.
#[derive(Debug, PartialEq, Eq)]
pub struct ReplicaParseDiagnostics {
    pub skipped_records: usize,
    pub first_error: Option<String>,
}

/// The error kept: the first one.
pub open spec fn first_error_after(
    before: ReplicaParseDiagnostics,
    path: Seq<char>,
    error: Seq<char>,
) -> Option<Seq<char>> {
    match before.first_error {
        Some(kept) => Some(kept@),
        None => Some(path + ": "@ + error),
    }
}

impl ReplicaParseDiagnostics {
    pub fn new() -> (r: Self)
        ensures
            r.skipped_records == 0,
            r.first_error is None,
    {
        ReplicaParseDiagnostics { skipped_records: 0, first_error: None }
    }

    pub fn record_skip(&mut self, path: &str, error: &str)
        requires
            old(self).skipped_records < usize::MAX,
        ensures
            final(self).skipped_records == old(self).skipped_records + 1,
            opt(final(self).first_error) == first_error_after(*old(self), path@, error@),
    {
        self.record_skips(1, path, error);
    }

    pub fn record_skips(&mut self, count: usize, path: &str, error: &str)
        requires
            old(self).skipped_records + count <= usize::MAX,
        ensures
            final(self).skipped_records == old(self).skipped_records + count,
            opt(final(self).first_error) == first_error_after(*old(self), path@, error@),
    {
        self.skipped_records = self.skipped_records + count;
        if self.first_error.is_none() {
            self.first_error = Some(concat3(path, ": ", error));
        }
    }
}

/// A host reached over ssh.
#[derive(Debug, PartialEq, Eq)]
pub struct RemoteHostConfig {
    pub hostname: String,
    pub user: Option<String>,
}

/// `user@hostname`, or the host name where no user is named.
pub open spec fn destination(remote: RemoteHostConfig) -> Seq<char> {
    match remote.user {
        Some(user) => if user@.len() > 0 {
            user@ + "@"@ + remote.hostname@
        } else {
            remote.hostname@
        },
        None => remote.hostname@,
    }
}

pub fn ssh_destination(remote: &RemoteHostConfig) -> (r: String)
    ensures
        r@ == destination(*remote),
{
    match &remote.user {
        Some(user) => {
            if user.as_str().is_empty() {
                remote.hostname.clone()
            } else {
                concat3(user.as_str(), "@", remote.hostname.as_str())
            }
        },
        None => remote.hostname.clone(),
    }
}

/// The options of a snapshot fetch that are always given.
pub open spec fn fetch_options() -> Seq<Seq<char>> {
    seq![
        "-T"@,
        "-o"@,
        "BatchMode=yes"@,
        "-o"@,
        "ConnectTimeout=2"@,
        "-o"@,
        "ConnectionAttempts=1"@,
    ]
}

/// The options that share one connection between fetches.
pub open spec fn multiplex_options() -> Seq<Seq<char>> {
    seq![
        "-o"@,
        "ControlMaster=auto"@,
        "-o"@,
        "ControlPath=/tmp/flotilla-ssh-%C"@,
        "-o"@,
        "ControlPersist=60"@,
    ]
}

/// The arguments of the ssh call that fetches a snapshot.
pub open spec fn fetch_args(remote: RemoteHostConfig, multiplex: bool, command: Seq<char>) -> Seq<Seq<char>> {
    fetch_options() + (if multiplex {
        multiplex_options()
    } else {
        Seq::empty()
    }) + seq![destination(remote), command]
}

fn push_text(v: &mut Vec<String>, s: &str)
    ensures
        strs(final(v)@) == strs(old(v)@).push(s@),
{
    let owned = s.to_owned();
    proof {
        lemma_strs_push(v@, owned);
    }
    v.push(owned);
}

/// The arguments of the login shell that the snapshot command is handed to, as
/// one more argument.
pub open spec fn login_shell_args() -> Seq<(bool, Seq<char>)> {
    seq![(false, "${SHELL:-/bin/sh}"@), (false, "-l"@), (false, "-c"@)]
}

/// The arguments of the command that prints a snapshot, away from any checkout.
pub open spec fn snapshot_args() -> Seq<(bool, Seq<char>)> {
    seq![
        (false, "cd"@),
        (true, "/"@),
        (false, "&&"@),
        (false, "exec"@),
        (false, "flotilla"@),
        (false, "--json"@),
        (true, "replica-snapshot"@),
    ]
}

/// The login shell that the snapshot command is handed to.
pub fn snapshot_login_shell() -> (r: Vec<AttachArg>)
    ensures
        r@.map_values(|a: AttachArg| arg(a)) == login_shell_args(),
{
    let mut shell: Vec<AttachArg> = Vec::new();
    shell.push(AttachArg::Literal("${SHELL:-/bin/sh}".to_owned()));
    shell.push(AttachArg::Literal("-l".to_owned()));
    shell.push(AttachArg::Literal("-c".to_owned()));
    assert(shell@.map_values(|a: AttachArg| arg(a)) =~= login_shell_args());
    shell
}

/// The command that prints a snapshot.
pub fn snapshot_command() -> (r: Vec<AttachArg>)
    ensures
        r@.map_values(|a: AttachArg| arg(a)) == snapshot_args(),
{
    let mut command: Vec<AttachArg> = Vec::new();
    command.push(AttachArg::Literal("cd".to_owned()));
    command.push(AttachArg::Quoted("/".to_owned()));
    command.push(AttachArg::Literal("&&".to_owned()));
    command.push(AttachArg::Literal("exec".to_owned()));
    command.push(AttachArg::Literal("flotilla".to_owned()));
    command.push(AttachArg::Literal("--json".to_owned()));
    command.push(AttachArg::Quoted("replica-snapshot".to_owned()));
    assert(command@.map_values(|a: AttachArg| arg(a)) =~= snapshot_args());
    command
}

/// `command` is the command line that prints the snapshot: the snapshot command,
/// quoted and handed to the login shell.
pub fn fleet_replica_ssh_args(remote: &RemoteHostConfig, multiplex: bool, command: &str) -> (r: Vec<String>)
    ensures
        strs(r@) == fetch_args(*remote, multiplex, command@),
{
    let mut args: Vec<String> = Vec::new();
    push_text(&mut args, "-T");
    push_text(&mut args, "-o");
    push_text(&mut args, "BatchMode=yes");
    push_text(&mut args, "-o");
    push_text(&mut args, "ConnectTimeout=2");
    push_text(&mut args, "-o");
    push_text(&mut args, "ConnectionAttempts=1");
    assert(strs(args@) =~= fetch_options());
    if multiplex {
        push_text(&mut args, "-o");
        push_text(&mut args, "ControlMaster=auto");
        push_text(&mut args, "-o");
        push_text(&mut args, "ControlPath=/tmp/flotilla-ssh-%C");
        push_text(&mut args, "-o");
        push_text(&mut args, "ControlPersist=60");
        assert(strs(args@) =~= fetch_options() + multiplex_options());
    }
    let host = ssh_destination(remote);
    push_text(&mut args, host.as_str());
    push_text(&mut args, command);
    assert(strs(args@) =~= fetch_args(*remote, multiplex, command@));
    args
}

/// What a fetch came back with.
pub enum FetchReply {
    TimedOut,
    NotRun(String),
    Finished { success: bool, stdout: String, stderr: String },
}

/// The text of a snapshot, or why there is none.
pub open spec fn snapshot_text(reply: FetchReply) -> Result<Seq<char>, Seq<char>> {
    match reply {
        FetchReply::TimedOut => Err("replica snapshot timed out after 2s"@),
        FetchReply::NotRun(e) => Err("replica snapshot ssh failed: "@ + e@),
        FetchReply::Finished { success, stdout, stderr } => if success {
            Ok(crate::text::trim(stdout@))
        } else if crate::text::blank(stderr@) {
            Err("replica snapshot command failed: "@ + crate::text::trim(stdout@))
        } else {
            Err("replica snapshot command failed: "@ + crate::text::trim(stderr@))
        },
    }
}

pub fn fetched_snapshot_text(reply: &FetchReply) -> (r: Result<String, String>)
    ensures
        match r {
            Ok(s) => snapshot_text(*reply) == Ok::<Seq<char>, Seq<char>>(s@),
            Err(e) => snapshot_text(*reply) == Err::<Seq<char>, Seq<char>>(e@),
        },
{
    match reply {
        FetchReply::TimedOut => Err("replica snapshot timed out after 2s".to_owned()),
        FetchReply::NotRun(e) => Err(concat2("replica snapshot ssh failed: ", e.as_str())),
        FetchReply::Finished { success, stdout, stderr } => {
            let out = crate::text::str_trim(stdout.as_str());
            if *success {
                Ok(out)
            } else {
                let err = crate::text::str_trim(stderr.as_str());
                if err.as_str().is_empty() {
                    Err(concat2("replica snapshot command failed: ", out.as_str()))
                } else {
                    Err(concat2("replica snapshot command failed: ", err.as_str()))
                }
            }
        },
    }
}

/// The row with another staleness.
pub fn row_with_staleness(row: &FleetListRow, staleness: FleetStaleness) -> (r: FleetListRow)
    ensures
        r == (FleetListRow { staleness, ..*row }),
{
    FleetListRow {
        convoy: row.convoy.clone(),
        convoy_ref: opt_clone(&row.convoy_ref),
        vessel: row.vessel.clone(),
        authority: opt_clone(&row.authority),
        crew: row.crew.clone(),
        crew_state: row.crew_state.clone(),
        attention: row.attention,
        host: row.host.clone(),
        placement_decision: share_opt(&row.placement_decision),
        namespace: row.namespace.clone(),
        session: opt_clone(&row.session),
        staleness,
    }
}

/// The state of one replica source.
#[derive(Debug, PartialEq, Eq)]
pub struct FleetReplicaStatus {
    pub host: String,
    pub reachable: bool,
    pub last_sync: Option<Timestamp>,
    pub generation: Option<String>,
    pub skipped_records: usize,
    pub first_parse_error: Option<String>,
    pub message: Option<String>,
}

impl Ranked for FleetReplicaStatus {
    open spec fn ranks_before(self, other: Self) -> bool {
        lex_le(self.host@, other.host@)
    }

    proof fn ranks_total(a: Self, b: Self) {
        lemma_lex_total(a.host@, b.host@);
        if crate::text::lex_lt(a.host@, b.host@) {
            lemma_lex_asymmetric(a.host@, b.host@);
        }
        if crate::text::lex_lt(b.host@, a.host@) {
            lemma_lex_asymmetric(b.host@, a.host@);
        }
    }

    proof fn ranks_transitive(a: Self, b: Self, c: Self) {
        lemma_lex_total(b.host@, a.host@);
        lemma_lex_total(c.host@, b.host@);
        if crate::text::lex_lt(c.host@, a.host@) {
            if crate::text::lex_lt(a.host@, b.host@) {
                lemma_lex_transitive(c.host@, a.host@, b.host@);
            }
        }
    }

    fn rank_before(&self, other: &Self) -> (r: bool) {
        !str_lt(other.host.as_str(), self.host.as_str())
    }
}

/// A configured replica source.
pub struct ReplicaSource {
    pub label: String,
    pub host: String,
}

/// What failed to replicate from a peer, and the host the peer runs on.
pub struct PeerFailures {
    pub host: String,
    pub failures: Vec<ResourceReplicationFailure>,
}

/// Everything that failed to replicate from a host.
pub open spec fn failures_of(peers: Seq<PeerFailures>, host: Seq<char>) -> Seq<ResourceReplicationFailure>
    decreases peers.len(),
{
    if peers.len() == 0 {
        Seq::empty()
    } else if peers.last().host@ == host {
        failures_of(peers.drop_last(), host) + peers.last().failures@
    } else {
        failures_of(peers.drop_last(), host)
    }
}

fn collect_failures(peers: &Vec<PeerFailures>, host: &str) -> (r: Vec<ResourceReplicationFailure>)
    ensures
        r@ == failures_of(peers@, host@),
{
    let mut r: Vec<ResourceReplicationFailure> = Vec::new();
    let mut i: usize = 0;
    while i < peers.len()
        invariant
            i <= peers@.len(),
            r@ =~= failures_of(peers@.take(i as int), host@),
        decreases peers.len() - i,
    {
        let p = &peers[i];
        assert(peers@.take(i + 1).drop_last() =~= peers@.take(i as int));
        if str_eq(p.host.as_str(), host) {
            let ghost before = r@;
            let mut j: usize = 0;
            while j < p.failures.len()
                invariant
                    j <= p.failures@.len(),
                    r@ =~= before + p.failures@.take(j as int),
                decreases p.failures.len() - j,
            {
                r.push(
                    ResourceReplicationFailure {
                        kind: p.failures[j].kind.clone(),
                        message: p.failures[j].message.clone(),
                    },
                );
                j = j + 1;
            }
            assert(p.failures@.take(p.failures@.len() as int) =~= p.failures@);
        }
        i = i + 1;
    }
    assert(peers@.take(peers@.len() as int) =~= peers@);
    r
}

/// Whether an earlier source has the same host.
pub open spec fn source_repeats(sources: Seq<ReplicaSource>, i: int) -> bool {
    exists|j: int| 0 <= j < i && (#[trigger] sources[j]).host@ == sources[i].host@
}

/// The failures reported with the `i`th source: its host's, with the first source of that host.
pub open spec fn source_failures(sources: Seq<ReplicaSource>, peers: Seq<PeerFailures>, i: int) -> Seq<ResourceReplicationFailure> {
    if source_repeats(sources, i) {
        Seq::empty()
    } else {
        failures_of(peers, sources[i].host@)
    }
}

/// `status` reports a configured source.
pub open spec fn source_status(
    status: FleetReplicaStatus,
    source: ReplicaSource,
    cache: Map<Seq<char>, FleetReplicaCacheEntry>,
    failures: Seq<ResourceReplicationFailure>,
) -> bool {
    let failed = failure_message(failures);
    &&& status.host@ == source.host@
    &&& if cache.dom().contains(source.host@) {
        let entry = cache[source.host@];
        &&& status.reachable == (entry.last_error is None && failed is None)
        &&& status.last_sync == entry.last_sync
        &&& status.generation == entry.generation
        &&& status.skipped_records == entry.skipped_records
        &&& status.first_parse_error == entry.first_parse_error
        &&& opt(status.message) == joined_errors(opt(entry.last_error), failed)
    } else {
        &&& !status.reachable
        &&& status.last_sync is None
        &&& status.generation is None
        &&& status.skipped_records == 0
        &&& status.first_parse_error is None
        &&& opt(status.message) == joined_errors(
            Some("replica source '"@ + source.label@ + "' has not synced yet"@),
            failed,
        )
    }
}

/// `status` reports a peer that is no configured source.
pub open spec fn stray_status(status: FleetReplicaStatus, host: Seq<char>, peers: Seq<PeerFailures>) -> bool {
    &&& status.host@ == host
    &&& !status.reachable
    &&& status.last_sync is None
    &&& status.generation is None
    &&& status.skipped_records == 0
    &&& status.first_parse_error is None
    &&& opt(status.message) == failure_message(failures_of(peers, host))
}

fn as_opt_str(o: &Option<String>) -> (r: Option<&str>)
    ensures
        opt_str(r) == opt(*o),
{
    match o {
        Some(s) => Some(s.as_str()),
        None => None,
    }
}

fn source_status_of(
    source: &ReplicaSource,
    entry: Option<&FleetReplicaCacheEntry>,
    failures: &Vec<ResourceReplicationFailure>,
) -> (r: FleetReplicaStatus)
    ensures
        match entry {
            Some(entry) => forall|cache: Map<Seq<char>, FleetReplicaCacheEntry>|
                cache.dom().contains(source.host@) && cache[source.host@] == *entry ==> source_status(
                    r,
                    *source,
                    cache,
                    failures@,
                ),
            None => forall|cache: Map<Seq<char>, FleetReplicaCacheEntry>|
                !cache.dom().contains(source.host@) ==> source_status(r, *source, cache, failures@),
        },
{
    let failed = format_resource_replication_failures(failures);
    match entry {
        Some(entry) => {
            let message = join_replica_errors(as_opt_str(&entry.last_error), as_opt_str(&failed));
            FleetReplicaStatus {
                host: source.host.clone(),
                reachable: entry.last_error.is_none() && failed.is_none(),
                last_sync: entry.last_sync,
                generation: opt_clone(&entry.generation),
                skipped_records: entry.skipped_records,
                first_parse_error: opt_clone(&entry.first_parse_error),
                message,
            }
        },
        None => {
            let unsynced = concat3("replica source '", source.label.as_str(), "' has not synced yet");
            let message = join_replica_errors(Some(unsynced.as_str()), as_opt_str(&failed));
            FleetReplicaStatus {
                host: source.host.clone(),
                reachable: false,
                last_sync: None,
                generation: None,
                skipped_records: 0,
                first_parse_error: None,
                message,
            }
        },
    }
}

/// The cached rows of each configured source in turn, with the entry they come from.
pub open spec fn cached_rows(
    sources: Seq<ReplicaSource>,
    cache: Map<Seq<char>, FleetReplicaCacheEntry>,
) -> Seq<(FleetReplicaCacheEntry, FleetListRow)>
    decreases sources.len(),
{
    if sources.len() == 0 {
        Seq::empty()
    } else {
        let before = cached_rows(sources.drop_last(), cache);
        let host = sources.last().host@;
        if cache.dom().contains(host) {
            before + cache[host].rows@.map_values(|row: FleetListRow| (cache[host], row))
        } else {
            before
        }
    }
}

/// `row` is a cached row, aged by its source's last sync.
pub open spec fn aged_row(row: FleetListRow, cached: (FleetReplicaCacheEntry, FleetListRow), now: Timestamp) -> bool {
    &&& staleness_of(cached.0, now, row.staleness)
    &&& row == (FleetListRow { staleness: row.staleness, ..cached.1 })
}

/// `rows` are the local rows with the cached ones behind them.
pub open spec fn listed_rows(
    rows: Seq<FleetListRow>,
    local: Seq<FleetListRow>,
    sources: Seq<ReplicaSource>,
    cache: Map<Seq<char>, FleetReplicaCacheEntry>,
    now: Timestamp,
) -> bool {
    let cached = cached_rows(sources, cache);
    &&& rows.len() == local.len() + cached.len()
    &&& rows.take(local.len() as int) == local
    &&& forall|k: int| 0 <= k < cached.len() ==> aged_row(#[trigger] rows[local.len() + k], cached[k], now)
}

/// The hosts with failures that are no configured source.
pub open spec fn stray_hosts(hosts: Seq<Seq<char>>, sources: Seq<ReplicaSource>, peers: Seq<PeerFailures>) -> bool {
    &&& strictly_sorted(hosts)
    &&& forall|h: Seq<char>| #[trigger]
        holds(hosts, h) <==> (exists|i: int| 0 <= i < peers.len() && (#[trigger] peers[i]).host@ == h) && !(
        exists|j: int| 0 <= j < sources.len() && (#[trigger] sources[j]).host@ == h)
}

/// `statuses` reports each source, and behind them the hosts `strays`.
pub open spec fn listed_statuses(
    statuses: Seq<FleetReplicaStatus>,
    sources: Seq<ReplicaSource>,
    cache: Map<Seq<char>, FleetReplicaCacheEntry>,
    peers: Seq<PeerFailures>,
    strays: Seq<Seq<char>>,
) -> bool {
    &&& stray_hosts(strays, sources, peers)
    &&& statuses.len() == sources.len() + strays.len()
    &&& forall|i: int|
        0 <= i < sources.len() ==> source_status(
            #[trigger] statuses[i],
            sources[i],
            cache,
            source_failures(sources, peers, i),
        )
    &&& forall|k: int|
        0 <= k < strays.len() ==> stray_status(#[trigger] statuses[sources.len() + k], strays[k], peers)
}

/// All rows of the fleet, and the state of each replica.
pub struct FleetList {
    pub rows: Vec<FleetListRow>,
    pub replicas: Vec<FleetReplicaStatus>,
}

fn repeats(sources: &Vec<ReplicaSource>, i: usize) -> (r: bool)
    requires
        i < sources@.len(),
    ensures
        r == source_repeats(sources@, i as int),
{
    let mut j: usize = 0;
    while j < i
        invariant
            j <= i < sources@.len(),
            forall|k: int| 0 <= k < j ==> (#[trigger] sources@[k]).host@ != sources@[i as int].host@,
        decreases i - j,
    {
        if str_eq(sources[j].host.as_str(), sources[i].host.as_str()) {
            return true;
        }
        j = j + 1;
    }
    false
}

fn is_source(sources: &Vec<ReplicaSource>, host: &str) -> (r: bool)
    ensures
        r == (exists|j: int| 0 <= j < sources@.len() && (#[trigger] sources@[j]).host@ == host@),
{
    let mut j: usize = 0;
    while j < sources.len()
        invariant
            j <= sources@.len(),
            forall|k: int| 0 <= k < j ==> (#[trigger] sources@[k]).host@ != host@,
        decreases sources.len() - j,
    {
        if str_eq(sources[j].host.as_str(), host) {
            return true;
        }
        j = j + 1;
    }
    false
}

/// The hosts with failures that are no configured source, in order.
fn strays_of(sources: &Vec<ReplicaSource>, peers: &Vec<PeerFailures>) -> (r: OrderedSet)
    ensures
        stray_hosts(r.items(), sources@, peers@),
{
    let mut r = OrderedSet::new();
    let mut i: usize = 0;
    while i < peers.len()
        invariant
            i <= peers@.len(),
            forall|h: Seq<char>| #[trigger]
                r@.contains(h) <==> (exists|k: int| 0 <= k < i && (#[trigger] peers@[k]).host@ == h) && !(
                exists|j: int| 0 <= j < sources@.len() && (#[trigger] sources@[j]).host@ == h),
        decreases peers.len() - i,
    {
        let host = &peers[i].host;
        let ghost before = r@;
        let known = is_source(sources, host.as_str());
        if !known {
            let _ = r.insert(host.clone());
        }
        proof {
            assert forall|h: Seq<char>| #[trigger] r@.contains(h) <==> (exists|k: int|
                0 <= k < i + 1 && (#[trigger] peers@[k]).host@ == h) && !(exists|j: int|
                0 <= j < sources@.len() && (#[trigger] sources@[j]).host@ == h) by {
                assert(before.contains(h) <==> (exists|k: int| 0 <= k < i && (#[trigger] peers@[k]).host@ == h) && !(
                exists|j: int| 0 <= j < sources@.len() && (#[trigger] sources@[j]).host@ == h));
                if h == host@ {
                    assert(peers@[i as int].host@ == h);
                } else {
                    if exists|k: int| 0 <= k < i + 1 && (#[trigger] peers@[k]).host@ == h {
                        let k = choose|k: int| 0 <= k < i + 1 && (#[trigger] peers@[k]).host@ == h;
                        assert(k < i);
                    }
                }
            }
        }
        i = i + 1;
    }
    let _n: usize = r.len();
    proof {
        assert forall|h: Seq<char>| #[trigger] holds(r.items(), h) <==> r@.contains(h) by {
            if holds(r.items(), h) {
                let k = choose|k: int| 0 <= k < r.items().len() && #[trigger] r.items()[k] == h;
                assert(r.items().contains(h));
            }
            if r@.contains(h) {
                let k = choose|k: int| 0 <= k < r.items().len() && r.items()[k] == h;
                assert(r.items()[k] == h);
            }
        }
    }
    r
}

/// The fleet: this host's rows and the cached ones, and a status for each
/// configured source and each other host that something failed to come from.
pub fn fleet_list(
    local: Vec<FleetListRow>,
    sources: &Vec<ReplicaSource>,
    cache: &OrderedMap<FleetReplicaCacheEntry>,
    peers: &Vec<PeerFailures>,
    now: &Timestamp,
) -> (r: FleetList)
    ensures
        exists|rows: Seq<FleetListRow>|
            #[trigger] listed_rows(rows, local@, sources@, cache@, *now) && r.rows@ == rank_sort(rows),
        exists|statuses: Seq<FleetReplicaStatus>, strays: Seq<Seq<char>>|
            #[trigger] listed_statuses(statuses, sources@, cache@, peers@, strays) && r.replicas@ == rank_sort(
                statuses,
            ),
{
    let ghost mine = local@;
    let mut rows = local;
    let n: usize = rows.len();
    let mut statuses: Vec<FleetReplicaStatus> = Vec::new();
    let mut i: usize = 0;
    assert(rows@.take(mine.len() as int) =~= mine);
    while i < sources.len()
        invariant
            i <= sources@.len(),
            n == mine.len(),
            listed_rows(rows@, mine, sources@.take(i as int), cache@, *now),
            statuses@.len() == i,
            forall|k: int|
                0 <= k < i ==> source_status(
                    #[trigger] statuses@[k],
                    sources@[k],
                    cache@,
                    source_failures(sources@, peers@, k),
                ),
        decreases sources.len() - i,
    {
        let source = &sources[i];
        let failures = if repeats(sources, i) {
            Vec::new()
        } else {
            collect_failures(peers, source.host.as_str())
        };
        assert(failures@ =~= source_failures(sources@, peers@, i as int));
        let entry = cache.get(source.host.as_str());
        let ghost held = rows@;
        let ghost before = cached_rows(sources@.take(i as int), cache@);
        assert(sources@.take(i + 1).drop_last() =~= sources@.take(i as int));
        if let Some(entry) = entry {
            let ghost more = entry.rows@.map_values(|row: FleetListRow| (*entry, row));
            let mut j: usize = 0;
            while j < entry.rows.len()
                invariant
                    j <= entry.rows@.len(),
                    rows@.len() == held.len() + j,
                    rows@.take(held.len() as int) == held,
                    forall|k: int|
                        0 <= k < j ==> aged_row(#[trigger] rows@[held.len() + k], (*entry, entry.rows@[k]), *now),
                decreases entry.rows.len() - j,
            {
                let staleness = replica_staleness(entry, now);
                let ghost was = rows@;
                rows.push(row_with_staleness(&entry.rows[j], staleness));
                assert(rows@.take(held.len() as int) =~= held);
                assert forall|k: int| 0 <= k < j + 1 implies aged_row(
                    #[trigger] rows@[held.len() + k],
                    (*entry, entry.rows@[k]),
                    *now,
                ) by {
                    if k < j {
                        assert(rows@[held.len() + k] == was[held.len() + k]);
                    }
                }
                j = j + 1;
            }
            proof {
                let after = before + more;
                assert(cached_rows(sources@.take(i + 1), cache@) =~= after);
                assert(rows@.take(n as int) =~= held.take(n as int));
                assert forall|k: int| 0 <= k < after.len() implies aged_row(
                    #[trigger] rows@[mine.len() + k],
                    after[k],
                    *now,
                ) by {
                    if k < before.len() {
                        assert(rows@[mine.len() + k] == rows@.take(held.len() as int)[mine.len() + k]);
                        assert(aged_row(held[mine.len() + k], before[k], *now));
                    } else {
                        let m = k - before.len();
                        assert(rows@[held.len() + m] == rows@[mine.len() + k]);
                        assert(after[k] == more[m]);
                    }
                }
            }
        } else {
            assert(cached_rows(sources@.take(i + 1), cache@) =~= before);
        }
        assert(listed_rows(rows@, mine, sources@.take(i + 1), cache@, *now));
        let status = source_status_of(source, entry, &failures);
        statuses.push(status);
        i = i + 1;
    }
    assert(sources@.take(sources@.len() as int) =~= sources@);
    assert(listed_rows(rows@, mine, sources@, cache@, *now));
    let strays = strays_of(sources, peers);
    let m: usize = strays.len();
    let mut k: usize = 0;
    while k < m
        invariant
            k <= m,
            m == strays.items().len(),
            statuses@.len() == sources@.len() + k,
            forall|x: int|
                0 <= x < sources@.len() ==> source_status(
                    #[trigger] statuses@[x],
                    sources@[x],
                    cache@,
                    source_failures(sources@, peers@, x),
                ),
            forall|x: int|
                0 <= x < k ==> stray_status(
                    #[trigger] statuses@[sources@.len() + x],
                    strays.items()[x],
                    peers@,
                ),
        decreases m - k,
    {
        let host = strays.item(k);
        let failures = collect_failures(peers, host.as_str());
        let message = format_resource_replication_failures(&failures);
        let ghost held = statuses@;
        statuses.push(
            FleetReplicaStatus {
                host: host.clone(),
                reachable: false,
                last_sync: None,
                generation: None,
                skipped_records: 0,
                first_parse_error: None,
                message,
            },
        );
        assert forall|x: int| 0 <= x < k + 1 implies stray_status(
            #[trigger] statuses@[sources@.len() + x],
            strays.items()[x],
            peers@,
        ) by {
            if x < k {
                assert(statuses@[sources@.len() + x] == held[sources@.len() + x]);
            }
        }
        k = k + 1;
    }
    assert(listed_statuses(statuses@, sources@, cache@, peers@, strays.items()));
    FleetList { rows: sort_ranked(rows), replicas: sort_ranked(statuses) }
}

/// What a refresh brought from one source.
pub struct FetchedSnapshot {
    pub host: String,
    pub generation: Option<String>,
    pub rows: Vec<FleetListRow>,
    /// The convoys that its result sets list.
    pub convoys: Vec<crate::fleet::ConvoyRow>,
    pub result_sets: Vec<Json>,
    pub skipped_records: usize,
    pub first_error: Option<String>,
}

/// `row` is a fetched row, attributed to the snapshot's host and fresh.
pub open spec fn adopted_row(row: FleetListRow, fetched: FleetListRow, host: Seq<char>, now: Timestamp) -> bool {
    &&& row.host@ == host
    &&& row == (FleetListRow {
        host: row.host,
        staleness: FleetStaleness::Fresh { last_sync: now },
        ..fetched
    })
}

/// `entry` is what a good fetch leaves in the cache.
pub open spec fn synced_entry(
    entry: FleetReplicaCacheEntry,
    snapshot: FetchedSnapshot,
    namespace: Seq<char>,
    now: Timestamp,
) -> bool {
    let n = snapshot.rows@.len();
    let picked = crate::fleet::crewless_indices(
        entry.rows@.take(n as int),
        snapshot.convoys@,
        namespace,
        snapshot.convoys@.len() as int,
    );
    &&& entry.last_sync == Some(now)
    &&& entry.result_sets == snapshot.result_sets
    &&& entry.generation == snapshot.generation
    &&& entry.skipped_records == snapshot.skipped_records
    &&& entry.first_parse_error == snapshot.first_error
    &&& entry.last_error is None
    &&& entry.rows@.len() == n + picked.len()
    &&& forall|i: int| 0 <= i < n ==> adopted_row(#[trigger] entry.rows@[i], snapshot.rows@[i], snapshot.host@, now)
    &&& forall|k: int|
        0 <= k < picked.len() ==> crate::fleet::crewless_row(
            #[trigger] entry.rows@[n + k],
            snapshot.convoys@[picked[k]],
            namespace,
            snapshot.host@,
            FleetStaleness::Fresh { last_sync: now },
        )
}

/// The cache entry of a fetched snapshot; rows of its own win over rows
/// derived from its convoys.
pub fn synced_cache_entry(snapshot: FetchedSnapshot, namespace: &str, now: &Timestamp) -> (r: FleetReplicaCacheEntry)
    ensures
        synced_entry(r, snapshot, namespace@, *now),
{
    let fresh = FleetStaleness::Fresh { last_sync: *now };
    let mut rows: Vec<FleetListRow> = Vec::new();
    let mut i: usize = 0;
    while i < snapshot.rows.len()
        invariant
            i <= snapshot.rows@.len(),
            rows@.len() == i,
            fresh == (FleetStaleness::Fresh { last_sync: *now }),
            forall|k: int|
                0 <= k < i ==> adopted_row(#[trigger] rows@[k], snapshot.rows@[k], snapshot.host@, *now),
        decreases snapshot.rows.len() - i,
    {
        let mut row = row_with_staleness(&snapshot.rows[i], fresh.copy());
        row.host = snapshot.host.clone();
        rows.push(row);
        i = i + 1;
    }
    let ghost own = rows@;
    crate::fleet::append_crewless_convoy_rows(&mut rows, namespace, &snapshot.convoys, snapshot.host.as_str(), &fresh);
    proof {
        assert forall|k: int| 0 <= k < own.len() implies adopted_row(
            #[trigger] rows@[k],
            snapshot.rows@[k],
            snapshot.host@,
            *now,
        ) by {
            assert(rows@[k] == rows@.take(own.len() as int)[k]);
        }
    }
    FleetReplicaCacheEntry {
        rows,
        result_sets: snapshot.result_sets,
        last_sync: Some(*now),
        generation: snapshot.generation,
        skipped_records: snapshot.skipped_records,
        first_parse_error: snapshot.first_error,
        last_error: None,
    }
}

/// The cache entry after a fetch that failed: what was known stays, with the error.
pub fn failed_cache_entry(before: Option<FleetReplicaCacheEntry>, message: &str) -> (r: FleetReplicaCacheEntry)
    ensures
        opt(r.last_error) == Some(message@),
        match before {
            Some(entry) => r == (FleetReplicaCacheEntry { last_error: r.last_error, ..entry }),
            None => r.rows@.len() == 0 && r.result_sets@.len() == 0 && r.last_sync is None && r.generation is None && r.skipped_records == 0
                && r.first_parse_error is None,
        },
{
    match before {
        Some(entry) => FleetReplicaCacheEntry { last_error: Some(message.to_owned()), ..entry },
        None => FleetReplicaCacheEntry {
            rows: Vec::new(),
            result_sets: Vec::new(),
            last_sync: None,
            generation: None,
            skipped_records: 0,
            first_parse_error: None,
            last_error: Some(message.to_owned()),
        },
    }
}

/// The kinds of resource that could not be brought over from each peer, and
/// why.
#[derive(Debug)]
pub struct ReplicationFailures {
    by_peer: OrderedMap<OrderedMap<String>>,
}

/// The failures of each peer, by value.
pub open spec fn failure_map(m: Map<Seq<char>, OrderedMap<String>>) -> Map<Seq<char>, Map<Seq<char>, Seq<char>>> {
    m.map_values(|inner: OrderedMap<String>| text_map(inner@))
}

/// The failures of one peer.
pub open spec fn of_peer(all: Map<Seq<char>, Map<Seq<char>, Seq<char>>>, peer: Seq<char>) -> Map<Seq<char>, Seq<char>> {
    if all.dom().contains(peer) {
        all[peer]
    } else {
        Map::empty()
    }
}

fn copy_texts(m: &OrderedMap<String>) -> (r: OrderedMap<String>)
    ensures
        text_map(r@) == text_map(m@),
{
    let mut r: OrderedMap<String> = OrderedMap::new();
    let n: usize = m.len();
    let mut i: usize = 0;
    while i < n
        invariant
            i <= n,
            n == m.keys().len(),
            strictly_sorted(m.keys()),
            forall|k: int| 0 <= k < n ==> m@.dom().contains(#[trigger] m.keys()[k]),
            forall|k: Seq<char>| #[trigger] r@.dom().contains(k) <==> exists|j: int| 0 <= j < i && m.keys()[j] == k,
            forall|k: Seq<char>| #[trigger] r@.dom().contains(k) ==> m@.dom().contains(k) && r@[k]@ == m@[k]@,
        decreases n - i,
    {
        let key = m.key(i);
        let value = m.value(i);
        let ghost before = r@;
        r.insert(key.clone(), value.clone());
        assert forall|k: Seq<char>| #[trigger] r@.dom().contains(k) <==> exists|j: int| 0 <= j < i + 1 && m.keys()[j] == k by {
            if before.dom().contains(k) {
                let j = choose|j: int| 0 <= j < i && m.keys()[j] == k;
                assert(m.keys()[j] == k);
            }
            if k == key@ {
                assert(m.keys()[i as int] == k);
            }
            if exists|j: int| 0 <= j < i + 1 && m.keys()[j] == k {
                let j = choose|j: int| 0 <= j < i + 1 && m.keys()[j] == k;
                if j < i {
                    assert(before.dom().contains(k));
                }
            }
        }
        i = i + 1;
    }
    let _n: usize = m.len();
    proof {
        assert forall|k: Seq<char>| text_map(m@).dom().contains(k) <==> text_map(r@).dom().contains(k) by {
            if m@.dom().contains(k) {
                assert(holds(m.keys(), k));
                let j = choose|j: int| 0 <= j < m.keys().len() && m.keys()[j] == k;
                assert(r@.dom().contains(k));
            }
            if r@.dom().contains(k) {
                assert(m@.dom().contains(k));
            }
        }
        assert(text_map(r@) =~= text_map(m@));
    }
    r
}

impl ReplicationFailures {
    /// What failed, by peer and kind.
    pub closed spec fn all(self) -> Map<Seq<char>, Map<Seq<char>, Seq<char>>> {
        failure_map(self.by_peer@)
    }

    pub fn new() -> (r: Self)
        ensures
            r.all() == Map::<Seq<char>, Map<Seq<char>, Seq<char>>>::empty(),
    {
        let r = ReplicationFailures { by_peer: OrderedMap::new() };
        assert(r.all() =~= Map::<Seq<char>, Map<Seq<char>, Seq<char>>>::empty());
        r
    }

    /// A peer starts over: what failed before is forgotten.
    pub fn begin_peer_resource_replication(&mut self, peer: &str)
        ensures
            final(self).all() == old(self).all().remove(peer@),
    {
        self.by_peer.remove(peer);
        assert(self.all() =~= old(self).all().remove(peer@));
    }

    pub fn report_resource_replication_failure(&mut self, peer: &str, kind: &str, message: &str)
        ensures
            final(self).all() == old(self).all().insert(
                peer@,
                of_peer(old(self).all(), peer@).insert(kind@, message@),
            ),
    {
        let mut inner = match self.by_peer.get(peer) {
            Some(known) => copy_texts(known),
            None => OrderedMap::new(),
        };
        assert(text_map(inner@) =~= of_peer(self.all(), peer@));
        let ghost before = inner@;
        inner.insert(kind.to_owned(), message.to_owned());
        assert(text_map(inner@) =~= text_map(before).insert(kind@, message@));
        let ghost view = text_map(inner@);
        self.by_peer.insert(peer.to_owned(), inner);
        assert(self.all() =~= old(self).all().insert(peer@, view));
    }

    /// A kind came over: its failure is forgotten, and the peer with it where
    /// nothing else failed.
    pub fn report_resource_replication_healthy(&mut self, peer: &str, kind: &str)
        ensures
            final(self).all() == (if !old(self).all().dom().contains(peer@) {
                old(self).all()
            } else if old(self).all()[peer@].remove(kind@) == Map::<Seq<char>, Seq<char>>::empty() {
                old(self).all().remove(peer@)
            } else {
                old(self).all().insert(peer@, old(self).all()[peer@].remove(kind@))
            }),
    {
        let ghost start = self.all();
        let mut inner = match self.by_peer.get(peer) {
            Some(known) => copy_texts(known),
            None => {
                return;
            },
        };
        assert(text_map(inner@) == start[peer@]);
        let ghost before = inner@;
        inner.remove(kind);
        let ghost view = text_map(inner@);
        assert(view =~= start[peer@].remove(kind@));
        let left: usize = inner.len();
        if left == 0 {
            proof {
                assert forall|k: Seq<char>| !view.dom().contains(k) by {
                    if inner@.dom().contains(k) {
                        assert(holds(inner.keys(), k));
                    }
                }
                assert(view =~= Map::<Seq<char>, Seq<char>>::empty());
            }
            self.by_peer.remove(peer);
            assert(self.all() =~= start.remove(peer@));
        } else {
            proof {
                assert(inner@.dom().contains(inner.keys()[0]));
                assert(view.dom().contains(inner.keys()[0]));
                assert(!Map::<Seq<char>, Seq<char>>::empty().dom().contains(inner.keys()[0]));
            }
            self.by_peer.insert(peer.to_owned(), inner);
            assert(self.all() =~= start.insert(peer@, view));
        }
    }

    /// What failed for a peer, by kind in order.
    pub fn failures_of_peer(&self, peer: &str) -> (r: Vec<ResourceReplicationFailure>)
        ensures
            strictly_sorted(Seq::new(r@.len(), |i: int| r@[i].kind@)),
            forall|i: int|
                0 <= i < r@.len() ==> of_peer(self.all(), peer@).dom().contains((#[trigger] r@[i]).kind@) && of_peer(
                    self.all(),
                    peer@,
                )[r@[i].kind@] == r@[i].message@,
            forall|k: Seq<char>| #[trigger]
                of_peer(self.all(), peer@).dom().contains(k) ==> exists|i: int| 0 <= i < r@.len() && (#[trigger] r@[i]).kind@ == k,
    {
        let mut r: Vec<ResourceReplicationFailure> = Vec::new();
        match self.by_peer.get(peer) {
            None => {
                assert(of_peer(self.all(), peer@) =~= Map::<Seq<char>, Seq<char>>::empty());
                r
            },
            Some(m) => {
                assert(of_peer(self.all(), peer@) == text_map(m@));
                let n: usize = m.len();
                let mut i: usize = 0;
                while i < n
                    invariant
                        i <= n,
                        n == m.keys().len(),
                        r@.len() == i,
                        forall|k: int|
                            0 <= k < i ==> (#[trigger] r@[k]).kind@ == m.keys()[k] && m@.dom().contains(m.keys()[k])
                                && r@[k].message@ == m@[m.keys()[k]]@,
                    decreases n - i,
                {
                    let key = m.key(i);
                    let value = m.value(i);
                    r.push(ResourceReplicationFailure { kind: key.clone(), message: value.clone() });
                    i = i + 1;
                }
                let _n: usize = m.len();
                proof {
                    assert(Seq::new(r@.len(), |i: int| r@[i].kind@) =~= m.keys());
                    assert forall|k: Seq<char>| #[trigger] of_peer(self.all(), peer@).dom().contains(k) implies exists|i: int|
                        0 <= i < r@.len() && (#[trigger] r@[i]).kind@ == k by {
                        assert(m@.dom().contains(k));
                        assert(holds(m.keys(), k));
                        let j = choose|j: int| 0 <= j < m.keys().len() && m.keys()[j] == k;
                        assert(r@[j].kind@ == k);
                    }
                }
                r
            },
        }
    }
}

/// A kind that comes over after it failed leaves no trace, where nothing of it
/// was recorded before.
pub proof fn law_recovery_undoes_failure(
    all: Map<Seq<char>, Map<Seq<char>, Seq<char>>>,
    peer: Seq<char>,
    kind: Seq<char>,
    message: Seq<char>,
)
    requires
        !of_peer(all, peer).dom().contains(kind),
        all.dom().contains(peer) ==> all[peer] != Map::<Seq<char>, Seq<char>>::empty(),
    ensures
        ({
            let failed = all.insert(peer, of_peer(all, peer).insert(kind, message));
            let left = failed[peer].remove(kind);
            all == (if left == Map::<Seq<char>, Seq<char>>::empty() {
                failed.remove(peer)
            } else {
                failed.insert(peer, left)
            })
        }),
{
    let failed = all.insert(peer, of_peer(all, peer).insert(kind, message));
    let left = failed[peer].remove(kind);
    assert(left =~= of_peer(all, peer));
    if left == Map::<Seq<char>, Seq<char>>::empty() {
        assert(failed.remove(peer) =~= all);
    } else {
        assert(all.dom().contains(peer));
        assert(failed.insert(peer, left) =~= all);
    }
}

/// Which records of a list can be read; what stands at each place is the error
/// where it cannot.
pub open spec fn readable_at(errors: Seq<Option<String>>) -> Seq<int>
    decreases errors.len(),
{
    if errors.len() == 0 {
        Seq::empty()
    } else if errors.last() is None {
        readable_at(errors.drop_last()).push(errors.len() - 1)
    } else {
        readable_at(errors.drop_last())
    }
}

/// How many records of a list cannot be read.
pub open spec fn unreadable_count(errors: Seq<Option<String>>) -> nat
    decreases errors.len(),
{
    if errors.len() == 0 {
        0
    } else {
        unreadable_count(errors.drop_last()) + if errors.last() is None {
            0nat
        } else {
            1nat
        }
    }
}

/// Where the first record stands that cannot be read, or the number of them.
pub open spec fn first_unreadable(errors: Seq<Option<String>>) -> int
    decreases errors.len(),
{
    if errors.len() == 0 || errors[0] is Some {
        0
    } else {
        1 + first_unreadable(errors.drop_first())
    }
}

/// What the path of a record is, in a list.
pub open spec fn record_path(list: Seq<char>, at: int) -> Seq<char> {
    list + "["@ + decimal(at as nat) + "]"@
}

/// `after` is what is known once a list was read.
pub open spec fn noted_list(
    after: ReplicaParseDiagnostics,
    before: ReplicaParseDiagnostics,
    list: Seq<char>,
    errors: Seq<Option<String>>,
) -> bool {
    let at = first_unreadable(errors);
    &&& after.skipped_records == before.skipped_records + unreadable_count(errors)
    &&& opt(after.first_error) == (if before.first_error is Some || at >= errors.len() {
        opt(before.first_error)
    } else {
        Some(record_path(list, at) + ": "@ + errors[at]->0@)
    })
}

proof fn lemma_unreadable_bound(errors: Seq<Option<String>>)
    ensures
        unreadable_count(errors) <= errors.len(),
    decreases errors.len(),
{
    if errors.len() > 0 {
        lemma_unreadable_bound(errors.drop_last());
    }
}

proof fn lemma_first_unreadable_prefix(errors: Seq<Option<String>>, n: int)
    requires
        0 <= n < errors.len(),
    ensures
        0 <= first_unreadable(errors.take(n)) <= n,
        first_unreadable(errors.take(n)) < n ==> first_unreadable(errors.take(n + 1)) == first_unreadable(errors.take(n)),
        first_unreadable(errors.take(n)) == n ==> first_unreadable(errors.take(n + 1)) == (if errors[n] is Some {
            n
        } else {
            n + 1
        }),
    decreases n,
{
    if n == 0 {
        assert(errors.take(1)[0] == errors[0]);
        assert(errors.take(1).drop_first() =~= Seq::<Option<String>>::empty());
        assert(first_unreadable(Seq::<Option<String>>::empty()) == 0);
    } else {
        let rest = errors.drop_first();
        assert(errors.take(n)[0] == errors[0]);
        assert(errors.take(n + 1)[0] == errors[0]);
        assert(errors.take(n).drop_first() =~= rest.take(n - 1));
        assert(errors.take(n + 1).drop_first() =~= rest.take(n));
        lemma_first_unreadable_prefix(rest, n - 1);
    }
}

/// Which records of a list are kept; those that cannot be read are counted, and
/// the first is remembered.
pub fn retain_parseable_records(list: &str, errors: &Vec<Option<String>>, diagnostics: &mut ReplicaParseDiagnostics) -> (r: Vec<usize>)
    requires
        old(diagnostics).skipped_records + errors@.len() <= usize::MAX,
    ensures
        r@.len() == readable_at(errors@).len(),
        forall|i: int| 0 <= i < r@.len() ==> r@[i] == #[trigger] readable_at(errors@)[i],
        noted_list(*final(diagnostics), *old(diagnostics), list@, errors@),
{
    let ghost start = *diagnostics;
    let mut r: Vec<usize> = Vec::new();
    let mut i: usize = 0;
    assert(errors@.take(0).len() == 0);
    while i < errors.len()
        invariant
            i <= errors@.len(),
            start.skipped_records + errors@.len() <= usize::MAX,
            r@.len() == readable_at(errors@.take(i as int)).len(),
            forall|k: int| 0 <= k < r@.len() ==> r@[k] == #[trigger] readable_at(errors@.take(i as int))[k],
            noted_list(*diagnostics, start, list@, errors@.take(i as int)),
        decreases errors.len() - i,
    {
        let ghost seen = errors@.take(i as int);
        let ghost now = errors@.take(i + 1);
        proof {
            assert(now.drop_last() =~= seen);
            assert(now.last() == errors@[i as int]);
            lemma_unreadable_bound(seen);
            lemma_first_unreadable_prefix(errors@, i as int);
            assert(forall|k: int| 0 <= k < i ==> now[k] == seen[k]);
        }
        match &errors[i] {
            None => {
                r.push(i);
            },
            Some(error) => {
                let at = decimal_str(i as u64);
                let path = concat4(list, "[", at.as_str(), "]");
                diagnostics.record_skip(path.as_str(), error.as_str());
            },
        }
        i = i + 1;
    }
    assert(errors@.take(errors@.len() as int) =~= errors@);
    r
}

/// What is known of the rows of a result set.
#[derive(Debug, PartialEq, Eq)]
#[allow(inconsistent_fields)]
pub enum ResultSetReading {
    /// It has no list of rows; it can be read as a whole, or cannot.
    NoRows { error: Option<String> },
    /// Whether it can be read without its rows, and with each of them.
    Rows { error: Option<String>, row_errors: Vec<Option<String>> },
}

/// The path of a result set.
pub open spec fn set_path(index: int) -> Seq<char> {
    record_path("result_sets"@, index)
}

/// `r` says which rows of a result set are kept, where the set is; `after` is
/// what is known then.
pub open spec fn set_retained(
    r: Option<Vec<usize>>,
    after: ReplicaParseDiagnostics,
    before: ReplicaParseDiagnostics,
    index: int,
    reading: ResultSetReading,
) -> bool {
    match reading {
        ResultSetReading::NoRows { error: None } => r matches Some(rows) && rows@.len() == 0 && after == before,
        ResultSetReading::NoRows { error: Some(e) } => r is None && after.skipped_records == before.skipped_records + 1 && opt(
            after.first_error,
        ) == first_error_after(before, set_path(index), e@),
        ResultSetReading::Rows { error: Some(e), row_errors } => r is None && after.skipped_records == before.skipped_records + (
        if row_errors@.len() > 0 {
            row_errors@.len() as int
        } else {
            1
        }) && opt(after.first_error) == first_error_after(before, set_path(index), e@),
        ResultSetReading::Rows { error: None, row_errors } => {
            &&& r matches Some(rows)
            &&& rows@.len() == readable_at(row_errors@).len()
            &&& forall|i: int| 0 <= i < rows@.len() ==> rows@[i] == #[trigger] readable_at(row_errors@)[i]
            &&& noted_list(after, before, set_path(index) + ".rows"@, row_errors@)
        },
    }
}

/// Which rows of a result set are kept. A set that cannot be read even without
/// its rows is left out with all of them.
pub fn retain_parseable_result_set_records(
    result_set_index: usize,
    reading: &ResultSetReading,
    diagnostics: &mut ReplicaParseDiagnostics,
) -> (r: Option<Vec<usize>>)
    requires
        old(diagnostics).skipped_records + 1 <= usize::MAX,
        reading matches ResultSetReading::Rows { error, row_errors } ==> old(diagnostics).skipped_records + row_errors@.len()
            <= usize::MAX,
    ensures
        set_retained(r, *final(diagnostics), *old(diagnostics), result_set_index as int, *reading),
{
    let at = decimal_str(result_set_index as u64);
    let path = concat4("result_sets", "[", at.as_str(), "]");
    match reading {
        ResultSetReading::NoRows { error } => match error {
            None => Some(Vec::new()),
            Some(e) => {
                diagnostics.record_skip(path.as_str(), e.as_str());
                None
            },
        },
        ResultSetReading::Rows { error, row_errors } => match error {
            Some(e) => {
                let count: usize = if row_errors.len() > 0 {
                    row_errors.len()
                } else {
                    1
                };
                diagnostics.record_skips(count, path.as_str(), e.as_str());
                None
            },
            None => {
                let rows = concat2(path.as_str(), ".rows");
                Some(retain_parseable_records(rows.as_str(), row_errors, diagnostics))
            },
        },
    }
}

/// Forgets what is cached of hosts that are no longer configured.
pub fn prune_replica_cache(cache: &mut OrderedMap<FleetReplicaCacheEntry>, configured: &Vec<String>)
    ensures
        forall|host: Seq<char>| #[trigger]
            final(cache)@.dom().contains(host) <==> old(cache)@.dom().contains(host) && holds(strs(configured@), host),
        forall|host: Seq<char>| #[trigger] final(cache)@.dom().contains(host) ==> final(cache)@[host] == old(cache)@[host],
{
    let ghost start = cache@;
    let n: usize = cache.len();
    let mut gone: Vec<String> = Vec::new();
    let mut i: usize = 0;
    while i < n
        invariant
            i <= n,
            n == cache.keys().len(),
            cache@ == start,
            forall|k: int| 0 <= k < gone@.len() ==> !holds(strs(configured@), (#[trigger] gone@[k])@),
            forall|j: int|
                0 <= j < i && !holds(strs(configured@), #[trigger] cache.keys()[j]) ==> holds(strs(gone@), cache.keys()[j]),
        decreases n - i,
    {
        let key = cache.key(i);
        if !strs_hold(configured, key.as_str()) {
            let ghost before = gone@;
            gone.push(key.clone());
            assert(strs(gone@)[before.len() as int] == key@);
            assert forall|j: int| 0 <= j < i + 1 && !holds(strs(configured@), #[trigger] cache.keys()[j]) implies holds(
                strs(gone@),
                cache.keys()[j],
            ) by {
                if j < i {
                    let m = choose|m: int| 0 <= m < strs(before).len() && strs(before)[m] == cache.keys()[j];
                    assert(strs(gone@)[m] == cache.keys()[j]);
                }
            }
        }
        i = i + 1;
    }
    let _n: usize = cache.len();
    assert forall|host: Seq<char>| start.dom().contains(host) && !holds(strs(configured@), host) implies holds(
        strs(gone@),
        host,
    ) by {
        assert(holds(cache.keys(), host));
        let j = choose|j: int| 0 <= j < cache.keys().len() && cache.keys()[j] == host;
        assert(!holds(strs(configured@), cache.keys()[j]));
    }
    let mut k: usize = 0;
    while k < gone.len()
        invariant
            k <= gone@.len(),
            forall|m: int| 0 <= m < gone@.len() ==> !holds(strs(configured@), (#[trigger] gone@[m])@),
            forall|host: Seq<char>| #[trigger]
                cache@.dom().contains(host) <==> start.dom().contains(host) && !holds(strs(gone@).take(k as int), host),
            forall|host: Seq<char>| #[trigger] cache@.dom().contains(host) ==> cache@[host] == start[host],
        decreases gone.len() - k,
    {
        let ghost before = cache@;
        let ghost out = gone@[k as int]@;
        cache.remove(gone[k].as_str());
        assert forall|host: Seq<char>| #[trigger] cache@.dom().contains(host) <==> start.dom().contains(host) && !holds(
            strs(gone@).take(k + 1),
            host,
        ) by {
            assert(before.dom().contains(host) <==> start.dom().contains(host) && !holds(strs(gone@).take(k as int), host));
            let small = strs(gone@).take(k as int);
            let large = strs(gone@).take(k + 1);
            assert(large[k as int] == out);
            if holds(small, host) {
                let m = choose|m: int| 0 <= m < small.len() && small[m] == host;
                assert(large[m] == host);
            }
            if holds(large, host) && host != out {
                let m = choose|m: int| 0 <= m < large.len() && large[m] == host;
                assert(small[m] == host);
            }
        }
        k = k + 1;
    }
    proof {
        assert(strs(gone@).take(gone@.len() as int) =~= strs(gone@));
        assert forall|host: Seq<char>| #[trigger] cache@.dom().contains(host) <==> start.dom().contains(host) && holds(
            strs(configured@),
            host,
        ) by {
            if holds(strs(gone@), host) {
                let m = choose|m: int| 0 <= m < strs(gone@).len() && strs(gone@)[m] == host;
                assert(!holds(strs(configured@), gone@[m]@));
            }
        }
    }
}

} // verus!
