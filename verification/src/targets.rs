//! Where an existing convoy is homed, and what is said where that cannot be
//! reached.
use vstd::prelude::*;

use crate::address::{ints, lemma_picked, picked, resolve_convoy_candidate_indices, resolved_indices, ConvoyAddressIdentity};
use crate::commands::CommandAction;
use crate::ordered::{sort_dedup, sorted_unique};
use crate::text::{concat4, concat9, join, join_strs, str_eq, strs};
use crate::time::{rfc3339_text, Timestamp};

verus! {

/// Where an existing convoy is homed.
#[derive(Debug, PartialEq, Eq)]
pub struct ExistingConvoyTarget {
    pub home: String,
    pub node_id: String,
    pub namespace: String,
    pub record_name: String,
    pub last_seen_at: Option<Timestamp>,
}

/// What is said where the home of a convoy cannot be reached.
pub open spec fn unreachable_text(
    namespace: Seq<char>,
    record_name: Seq<char>,
    home: Seq<char>,
    last_seen_at: Option<Timestamp>,
    cause: Seq<char>,
) -> Seq<char> {
    let last_seen = match last_seen_at {
        Some(at) => rfc3339_text(at.secs() as i64, at.nanos() as u32),
        None => "unknown"@,
    };
    "convoy "@ + namespace + "/"@ + record_name + " is homed at "@ + home + ", last seen "@ + last_seen
        + "; home is unreachable: "@ + (cause + ". Break glass: flotilla resource delete convoys "@ + record_name
        + " --namespace "@ + namespace + " --host "@ + home)
}

pub fn convoy_home_unreachable_message(
    namespace: &str,
    record_name: &str,
    home: &str,
    last_seen_at: &Option<Timestamp>,
    cause: &str,
) -> (r: String)
    ensures
        r@ == unreachable_text(namespace@, record_name@, home@, *last_seen_at, cause@),
{
    let last_seen = match last_seen_at {
        Some(at) => at.to_rfc3339(),
        None => "unknown".to_owned(),
    };
    let head = concat9(
        "convoy ",
        namespace,
        "/",
        record_name,
        " is homed at ",
        home,
        ", last seen ",
        last_seen.as_str(),
        "; home is unreachable: ",
    );
    let tail = crate::text::concat7(
        cause,
        ". Break glass: flotilla resource delete convoys ",
        record_name,
        " --namespace ",
        namespace,
        " --host ",
        home,
    );
    crate::text::concat2(head.as_str(), tail.as_str())
}

impl ExistingConvoyTarget {
    pub fn unreachable_message(&self, cause: &str) -> (r: String)
        ensures
            r@ == unreachable_text(self.namespace@, self.record_name@, self.home@, self.last_seen_at, cause@),
    {
        convoy_home_unreachable_message(
            self.namespace.as_str(),
            self.record_name.as_str(),
            self.home.as_str(),
            &self.last_seen_at,
            cause,
        )
    }
}

/// A namespace that may be left out.
pub open spec fn named_or(namespace: Option<String>, default_namespace: Seq<char>) -> Seq<char> {
    match namespace {
        Some(namespace) => namespace@,
        None => default_namespace,
    }
}

/// The namespace and the name of the convoy that a command is about: the one it
/// names, or the one whose crew it comes from.
pub open spec fn subject_convoy(action: CommandAction, default_namespace: Seq<char>) -> Result<
    Option<(Seq<char>, Seq<char>)>,
    Seq<char>,
> {
    match action {
        CommandAction::ConvoyDelete { namespace, name }
        | CommandAction::ConvoyAbandon { namespace, name }
        | CommandAction::ConvoyResume { namespace, name }
        | CommandAction::ConvoyWithdrawPendingBrief { namespace, name }
        | CommandAction::QueryExplainConvoy { namespace, name } => Ok(Some((named_or(namespace, default_namespace), name@))),
        CommandAction::ConvoyWorkForceComplete { convoy } => Ok(Some((default_namespace, convoy@))),
        CommandAction::CrewComplete { context }
        | CommandAction::CrewFail { context }
        | CommandAction::CrewHandoff { context }
        | CommandAction::QueryCrewList { context } => match context.convoy {
            Some(convoy) => Ok(Some((named_or(context.namespace, default_namespace), convoy@))),
            None => Err("crew command was not resolved to a convoy"@),
        },
        _ => Ok(None),
    }
}

fn named(namespace: &Option<String>, default_namespace: &str, name: &str) -> (r: (String, String))
    ensures
        r.0@ == named_or(*namespace, default_namespace@),
        r.1@ == name@,
{
    let namespace = match namespace {
        Some(namespace) => namespace.clone(),
        None => default_namespace.to_owned(),
    };
    (namespace, name.to_owned())
}

/// Which convoy a command is about.
pub fn target_convoy(action: &CommandAction, default_namespace: &str) -> (r: Result<Option<(String, String)>, String>)
    ensures
        match r {
            Ok(Some((namespace, name))) => subject_convoy(*action, default_namespace@) == Ok::<
                Option<(Seq<char>, Seq<char>)>,
                Seq<char>,
            >(Some((namespace@, name@))),
            Ok(None) => subject_convoy(*action, default_namespace@) == Ok::<Option<(Seq<char>, Seq<char>)>, Seq<char>>(None),
            Err(e) => subject_convoy(*action, default_namespace@) == Err::<Option<(Seq<char>, Seq<char>)>, Seq<char>>(e@),
        },
{
    match action {
        CommandAction::ConvoyDelete { namespace, name }
        | CommandAction::ConvoyAbandon { namespace, name }
        | CommandAction::ConvoyResume { namespace, name }
        | CommandAction::ConvoyWithdrawPendingBrief { namespace, name }
        | CommandAction::QueryExplainConvoy { namespace, name } => Ok(Some(named(namespace, default_namespace, name.as_str()))),
        CommandAction::ConvoyWorkForceComplete { convoy } => Ok(Some((default_namespace.to_owned(), convoy.clone()))),
        CommandAction::CrewComplete { context }
        | CommandAction::CrewFail { context }
        | CommandAction::CrewHandoff { context }
        | CommandAction::QueryCrewList { context } => match &context.convoy {
            Some(convoy) => Ok(Some(named(&context.namespace, default_namespace, convoy.as_str()))),
            None => Err("crew command was not resolved to a convoy".to_owned()),
        },
        _ => Ok(None),
    }
}

/// A convoy as everyone sees it.
pub struct TargetRow<'a> {
    pub namespace: String,
    pub identity: ConvoyAddressIdentity<'a>,
    pub host: Option<String>,
}

/// Where the convoys of a namespace stand.
pub open spec fn rows_in(rows: Seq<TargetRow<'_>>, namespace: Seq<char>) -> Seq<int> {
    picked(rows.len() as int, |i: int| rows[i].namespace@ == namespace)
}

/// The identities of convoys.
pub open spec fn identities_at<'a>(rows: Seq<TargetRow<'a>>, at: Seq<int>) -> Seq<ConvoyAddressIdentity<'a>> {
    Seq::new(at.len(), |k: int| rows[at[k]].identity)
}

/// The hosts of those convoys that have one.
pub open spec fn hosts_at(rows: Seq<TargetRow<'_>>, at: Seq<int>, chosen: Seq<int>) -> Seq<Seq<char>>
    decreases chosen.len(),
{
    if chosen.len() == 0 {
        Seq::empty()
    } else {
        let before = hosts_at(rows, at, chosen.drop_last());
        match rows[at[chosen.last()]].host {
            Some(host) => before.push(host@),
            None => before,
        }
    }
}

/// What is known of where a convoy is homed.
#[derive(Debug, PartialEq, Eq)]
pub enum HomeReading {
    /// Nobody homes it.
    Nowhere,
    /// A host homes it, under a record name.
    At { home: String, record_name: String },
}

/// `r` says where a convoy is homed.
pub open spec fn home_found(r: Result<HomeReading, String>, rows: Seq<TargetRow<'_>>, namespace: Seq<char>, name: Seq<char>) -> bool {
    let at = rows_in(rows, namespace);
    let ids = identities_at(rows, at);
    match resolved_indices(ids, name) {
        Err(e) => r matches Err(text) && text@ == e,
        Ok(chosen) => {
            let record = if chosen.len() > 0 {
                ids[chosen[0]].record_name@
            } else {
                name
            };
            let hosts = sorted_unique(hosts_at(rows, at, chosen));
            if hosts.len() == 0 {
                r == Ok::<HomeReading, String>(HomeReading::Nowhere)
            } else if hosts.len() == 1 {
                r matches Ok(HomeReading::At { home, record_name }) && home@ == hosts[0] && record_name@ == record
            } else {
                r matches Err(text) && text@ == "convoy "@ + name + " is present on multiple home hosts: "@ + join(hosts, ", "@)
            }
        },
    }
}

/// The rows of a namespace are rows, and of the namespace.
pub proof fn lemma_rows_in(rows: Seq<TargetRow<'_>>, namespace: Seq<char>, k: int)
    requires
        0 <= k < rows_in(rows, namespace).len(),
    ensures
        0 <= rows_in(rows, namespace)[k] < rows.len(),
        rows[rows_in(rows, namespace)[k]].namespace@ == namespace,
{
    let n = rows.len() as int;
    let p = choose|p: spec_fn(int) -> bool|
        #[trigger] picked(n, p) == rows_in(rows, namespace) && forall|i: int| #[trigger] p(i) == (rows[i].namespace@ == namespace);
    lemma_picked(n, p);
    assert(p(picked(n, p)[k]));
}

fn rows_of(rows: &Vec<TargetRow<'_>>, namespace: &str) -> (r: Vec<usize>)
    ensures
        ints(r@) == rows_in(rows@, namespace@),
        forall|k: int| 0 <= k < r@.len() ==> #[trigger] r@[k] < rows@.len(),
{
    let ghost p = |i: int| rows@[i].namespace@ == namespace@;
    let mut r: Vec<usize> = Vec::new();
    let mut i: usize = 0;
    assert(ints(r@) =~= picked(0, p));
    while i < rows.len()
        invariant
            i <= rows@.len(),
            p == (|i: int| rows@[i].namespace@ == namespace@),
            ints(r@) == picked(i as int, p),
            forall|k: int| 0 <= k < r@.len() ==> #[trigger] r@[k] < i,
        decreases rows.len() - i,
    {
        if str_eq(rows[i].namespace.as_str(), namespace) {
            let ghost was = ints(r@);
            r.push(i);
            assert(ints(r@) =~= was.push(i as int));
        }
        i = i + 1;
    }
    r
}

fn hosts_of(rows: &Vec<TargetRow<'_>>, at: &Vec<usize>, chosen: &Vec<usize>) -> (r: Vec<String>)
    requires
        forall|k: int| 0 <= k < at@.len() ==> #[trigger] at@[k] < rows@.len(),
        forall|k: int| 0 <= k < chosen@.len() ==> #[trigger] chosen@[k] < at@.len(),
    ensures
        strs(r@) == hosts_at(rows@, ints(at@), ints(chosen@)),
{
    let mut r: Vec<String> = Vec::new();
    let mut k: usize = 0;
    assert(strs(r@) =~= hosts_at(rows@, ints(at@), ints(chosen@).take(0)));
    while k < chosen.len()
        invariant
            k <= chosen@.len(),
            forall|k: int| 0 <= k < at@.len() ==> #[trigger] at@[k] < rows@.len(),
            forall|k: int| 0 <= k < chosen@.len() ==> #[trigger] chosen@[k] < at@.len(),
            strs(r@) == hosts_at(rows@, ints(at@), ints(chosen@).take(k as int)),
        decreases chosen.len() - k,
    {
        assert(ints(chosen@).take(k + 1).drop_last() =~= ints(chosen@).take(k as int));
        assert(ints(chosen@).take(k + 1).last() == chosen@[k as int]);
        let c: usize = chosen[k];
        let i: usize = at[c];
        assert(ints(at@)[c as int] == i);
        match &rows[i].host {
            Some(host) => {
                let ghost was = strs(r@);
                r.push(host.clone());
                assert(strs(r@) =~= was.push(host@));
            },
            None => {},
        }
        k = k + 1;
    }
    assert(ints(chosen@).take(chosen@.len() as int) =~= ints(chosen@));
    r
}

/// Where a convoy is homed, from what everyone sees.
pub fn convoy_home(rows: &Vec<TargetRow<'_>>, namespace: &str, name: &str) -> (r: Result<HomeReading, String>)
    ensures
        home_found(r, rows@, namespace@, name@),
{
    let at = rows_of(rows, namespace);
    let mut ids: Vec<ConvoyAddressIdentity<'_>> = Vec::new();
    let mut k: usize = 0;
    while k < at.len()
        invariant
            k <= at@.len(),
            forall|k: int| 0 <= k < at@.len() ==> #[trigger] at@[k] < rows@.len(),
            ids@.len() == k,
            forall|j: int| 0 <= j < k ==> #[trigger] ids@[j] == rows@[at@[j] as int].identity,
        decreases at.len() - k,
    {
        ids.push(rows[at[k]].identity);
        k = k + 1;
    }
    assert(ids@ =~= identities_at(rows@, ints(at@)));
    let chosen = match resolve_convoy_candidate_indices(&ids, name) {
        Err(e) => {
            return Err(e);
        },
        Ok(chosen) => chosen,
    };
    assert(ints(chosen@).len() == chosen@.len());
    let record_name = if chosen.len() > 0 {
        assert(ints(chosen@)[0] == chosen@[0]);
        ids[chosen[0]].record_name.to_owned()
    } else {
        name.to_owned()
    };
    let listed = hosts_of(rows, &at, &chosen);
    let hosts = sort_dedup(&listed);
    assert(strs(hosts@).len() == hosts@.len());
    if hosts.len() == 0 {
        return Ok(HomeReading::Nowhere);
    }
    if hosts.len() == 1 {
        assert(strs(hosts@)[0] == hosts@[0]@);
        return Ok(HomeReading::At { home: hosts[0].clone(), record_name });
    }
    let homes = join_strs(&hosts, ", ");
    Err(concat4("convoy ", name, " is present on multiple home hosts: ", homes.as_str()))
}

/// `r` is the target at a home: this host's own, or that of the node that is
/// routed to.
pub open spec fn target_at(
    r: Result<ExistingConvoyTarget, String>,
    home: Seq<char>,
    record_name: Seq<char>,
    namespace: Seq<char>,
    local: (Seq<char>, Seq<char>),
    last_seen_at: Option<Timestamp>,
    routed: Result<Option<String>, String>,
) -> bool {
    let is_target = |t: ExistingConvoyTarget, node: Seq<char>, seen: Option<Timestamp>|
        t.home@ == home && t.node_id@ == node && t.namespace@ == namespace && t.record_name@ == record_name && t.last_seen_at
            == seen;
    if home == local.0 {
        r matches Ok(t) && is_target(t, local.1, None)
    } else {
        match routed {
            Err(e) => r matches Err(text) && text@ == e@,
            Ok(None) => r matches Err(text) && text@ == unreachable_text(
                namespace,
                record_name,
                home,
                last_seen_at,
                "no routed node address found for host"@,
            ),
            Ok(Some(node)) => r matches Ok(t) && is_target(t, node@, last_seen_at),
        }
    }
}

/// The target at a home. `last_seen_at` is when its copy was last brought up to
/// date, and `routed` the node that the host is reached at.
pub fn resolve_existing_convoy_target(
    home: &str,
    record_name: &str,
    namespace: &str,
    local_host: &str,
    local_node: &str,
    last_seen_at: &Option<Timestamp>,
    routed: &Result<Option<String>, String>,
) -> (r: Result<ExistingConvoyTarget, String>)
    ensures
        target_at(r, home@, record_name@, namespace@, (local_host@, local_node@), *last_seen_at, *routed),
{
    if str_eq(home, local_host) {
        return Ok(
            ExistingConvoyTarget {
                home: home.to_owned(),
                node_id: local_node.to_owned(),
                namespace: namespace.to_owned(),
                record_name: record_name.to_owned(),
                last_seen_at: None,
            },
        );
    }
    match routed {
        Err(e) => Err(e.clone()),
        Ok(None) => Err(
            convoy_home_unreachable_message(
                namespace,
                record_name,
                home,
                last_seen_at,
                "no routed node address found for host",
            ),
        ),
        Ok(Some(node)) => Ok(
            ExistingConvoyTarget {
                home: home.to_owned(),
                node_id: node.clone(),
                namespace: namespace.to_owned(),
                record_name: record_name.to_owned(),
                last_seen_at: *last_seen_at,
            },
        ),
    }
}

} // verus!
