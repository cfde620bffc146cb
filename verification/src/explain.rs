//! Why a convoy stands where it stands.
use vstd::prelude::*;

use crate::address::{ints, resolve_convoy_candidate_indices, resolved_indices, ConvoyAddressIdentity};
use crate::evidence::{freshness, observed_freshness, seen_at, CheckoutIntegration, EvidenceFreshness, IntegrationCondition};
use crate::model::{ConditionValue, ConvoyPhase, CrewWorkPhase, Provenance};
use crate::ordered::OrderedMap;
use crate::resources::RecordProvenance;
use crate::sorting::{rank_sort, sort_ranked, Ranked};
use crate::text::{
    concat2, concat3, concat4, lemma_lex_asymmetric, lemma_lex_total, lemma_lex_transitive, lex_le, lex_lt, opt, opt_clone,
    opt_is, str_eq, str_lt, strs, strs_clone,
};
use crate::time::{parts, rfc3339_text, Timestamp};

verus! {

/// The name of a convoy's phase.
pub open spec fn phase_name(phase: ConvoyPhase) -> Seq<char> {
    match phase {
        ConvoyPhase::Pending => "Pending"@,
        ConvoyPhase::Active => "Active"@,
        ConvoyPhase::Interrupted => "Interrupted"@,
        ConvoyPhase::Anchored => "Anchored"@,
        ConvoyPhase::Landing => "Landing"@,
        ConvoyPhase::Landed => "Landed"@,
        ConvoyPhase::Failed => "Failed"@,
        ConvoyPhase::Cancelled => "Cancelled"@,
        ConvoyPhase::Abandoned => "Abandoned"@,
    }
}

pub fn phase_text(phase: ConvoyPhase) -> (r: String)
    ensures
        r@ == phase_name(phase),
{
    match phase {
        ConvoyPhase::Pending => "Pending".to_owned(),
        ConvoyPhase::Active => "Active".to_owned(),
        ConvoyPhase::Interrupted => "Interrupted".to_owned(),
        ConvoyPhase::Anchored => "Anchored".to_owned(),
        ConvoyPhase::Landing => "Landing".to_owned(),
        ConvoyPhase::Landed => "Landed".to_owned(),
        ConvoyPhase::Failed => "Failed".to_owned(),
        ConvoyPhase::Cancelled => "Cancelled".to_owned(),
        ConvoyPhase::Abandoned => "Abandoned".to_owned(),
    }
}

/// `p` says where a record comes from.
pub open spec fn explained(p: RecordProvenance, provenance: Provenance, node: Seq<char>) -> bool {
    match provenance {
        Provenance::Local => p matches RecordProvenance::Local { node_id } && node_id@ == node,
        Provenance::Replica { origin_root, last_synced_at } => p matches RecordProvenance::Replica {
            origin_root: root,
            last_synced_at: at,
        } && root@ == origin_root@ && at@ == rfc3339_text(
            last_synced_at.secs() as i64,
            last_synced_at.nanos() as u32,
        ),
    }
}

pub fn explained_provenance(provenance: &Provenance, local_node_id: &str) -> (p: RecordProvenance)
    ensures
        explained(p, *provenance, local_node_id@),
{
    match provenance {
        Provenance::Local => RecordProvenance::Local { node_id: local_node_id.to_owned() },
        Provenance::Replica { origin_root, last_synced_at } => RecordProvenance::Replica {
            origin_root: origin_root.clone(),
            last_synced_at: last_synced_at.to_rfc3339(),
        },
    }
}

/// `p` explains an optional provenance.
pub open spec fn explained_opt(p: Option<RecordProvenance>, provenance: Option<Provenance>, node: Seq<char>) -> bool {
    match (p, provenance) {
        (None, None) => true,
        (Some(p), Some(provenance)) => explained(p, provenance, node),
        _ => false,
    }
}

/// A condition, put in words.
#[derive(Debug, PartialEq, Eq)]
pub struct ExplainedCondition {
    pub value: String,
    pub observed_at: Option<String>,
    pub freshness: EvidenceFreshness,
    pub details: Vec<String>,
}

/// The word for a condition's value.
pub open spec fn value_word(value: ConditionValue) -> Seq<char> {
    match value {
        ConditionValue::True => "true"@,
        ConditionValue::False => "false"@,
        ConditionValue::Unknown => "unknown"@,
    }
}

/// `e` puts a condition in words.
pub open spec fn condition_words(e: ExplainedCondition, c: IntegrationCondition, now: Timestamp, ttl: int) -> bool {
    &&& e.value@ == value_word(c.value)
    &&& e.observed_at == c.observed_at
    &&& e.freshness == freshness(seen_at(c), now, ttl)
    &&& e.details@ == c.details@
}

pub fn explain_condition(condition: &IntegrationCondition, now: &Timestamp, ttl_nanos: i128) -> (e: ExplainedCondition)
    ensures
        condition_words(e, *condition, *now, ttl_nanos as int),
{
    let observed_at = match &condition.observed_at {
        Some(text) => Timestamp::from_rfc3339(text.as_str()),
        None => None,
    };
    ExplainedCondition {
        value: match condition.value {
            ConditionValue::True => "true".to_owned(),
            ConditionValue::False => "false".to_owned(),
            ConditionValue::Unknown => "unknown".to_owned(),
        },
        observed_at: opt_clone(&condition.observed_at),
        freshness: observed_freshness(&observed_at, now, ttl_nanos),
        details: strs_clone(&condition.details),
    }
}

/// Something that a convoy's settlement still waits for.
#[derive(Debug, PartialEq, Eq)]
#[allow(inconsistent_fields)]
pub enum UnmetExpectation {
    InvalidExpectedCheckouts { message: String },
    ExitEntryAwaitingBinding { disposition: String, subject: String },
    MissingCheckout { checkout: String },
    MissingCheckoutStatus { checkout: String },
    CheckoutConditionFalse { checkout: String, condition: String },
    CheckoutConditionUnknown { checkout: String, condition: String },
    StaleCheckoutEvidence { checkout: String, condition: String, observed_at: Option<String> },
    MissingChangeRequest { record: String },
    StaleChangeRequest { record: String, observed_at: Option<String> },
    ChangeRequestConditionFalse { record: String, value: Option<String> },
    InvalidCondition { subject: String, message: String },
}

/// It, put in words.
#[derive(Debug, PartialEq, Eq)]
pub struct ExplainedUnmetExpectation {
    pub reason: String,
    pub subject: String,
    pub detail: String,
}

/// The value behind a prefix, or other words where there is none.
pub open spec fn prefixed_or(prefix: Seq<char>, value: Option<Seq<char>>, other: Seq<char>) -> Seq<char> {
    match value {
        Some(value) => prefix + value,
        None => other,
    }
}

/// The reason, the subject and the detail of an unmet expectation.
pub open spec fn unmet_words(x: UnmetExpectation) -> (Seq<char>, Seq<char>, Seq<char>) {
    match x {
        UnmetExpectation::InvalidExpectedCheckouts { message } => (
            "invalid_expected_checkouts"@,
            "convoy"@,
            message@,
        ),
        UnmetExpectation::ExitEntryAwaitingBinding { disposition, subject } => (
            "missing_binding"@,
            "exit/"@ + disposition@,
            "entry awaits a bound change request for "@ + subject@,
        ),
        UnmetExpectation::MissingCheckout { checkout } => (
            "missing_record"@,
            "checkout/"@ + checkout@,
            "expected checkout has no federated record"@,
        ),
        UnmetExpectation::MissingCheckoutStatus { checkout } => (
            "missing_status"@,
            "checkout/"@ + checkout@,
            "observed checkout has no status"@,
        ),
        UnmetExpectation::CheckoutConditionFalse { checkout, condition } => (
            "false_condition"@,
            "checkout/"@ + checkout@ + "."@ + condition@,
            condition@ + " is false"@,
        ),
        UnmetExpectation::CheckoutConditionUnknown { checkout, condition } => (
            "unknown_condition"@,
            "checkout/"@ + checkout@ + "."@ + condition@,
            condition@ + " is unknown"@,
        ),
        UnmetExpectation::StaleCheckoutEvidence { checkout, condition, observed_at } => (
            "stale_evidence"@,
            "checkout/"@ + checkout@ + "."@ + condition@,
            prefixed_or("observed at "@, opt(observed_at), "evidence has no observation time"@),
        ),
        UnmetExpectation::MissingChangeRequest { record } => (
            "missing_record"@,
            "change_request/"@ + record@,
            "expected change request has no federated observation"@,
        ),
        UnmetExpectation::StaleChangeRequest { record, observed_at } => (
            "stale_evidence"@,
            "change_request/"@ + record@ + ".state"@,
            prefixed_or("observed at "@, opt(observed_at), "state has no observation time"@),
        ),
        UnmetExpectation::ChangeRequestConditionFalse { record, value } => (
            "false_condition"@,
            "change_request/"@ + record@ + ".state"@,
            prefixed_or("state is "@, opt(value), "state is unknown"@),
        ),
        UnmetExpectation::InvalidCondition { subject, message } => ("invalid_condition"@, subject@, message@),
    }
}

fn prefixed_or_str(prefix: &str, value: &Option<String>, other: &str) -> (r: String)
    ensures
        r@ == prefixed_or(prefix@, opt(*value), other@),
{
    match value {
        Some(value) => concat2(prefix, value.as_str()),
        None => other.to_owned(),
    }
}

fn words(reason: &str, subject: String, detail: String) -> (r: ExplainedUnmetExpectation)
    ensures
        r.reason@ == reason@,
        r.subject == subject,
        r.detail == detail,
{
    ExplainedUnmetExpectation { reason: reason.to_owned(), subject, detail }
}

pub fn explain_unmet_expectation(expectation: &UnmetExpectation) -> (r: ExplainedUnmetExpectation)
    ensures
        (r.reason@, r.subject@, r.detail@) == unmet_words(*expectation),
{
    match expectation {
        UnmetExpectation::InvalidExpectedCheckouts { message } => words(
            "invalid_expected_checkouts",
            "convoy".to_owned(),
            message.clone(),
        ),
        UnmetExpectation::ExitEntryAwaitingBinding { disposition, subject } => words(
            "missing_binding",
            concat2("exit/", disposition.as_str()),
            concat2("entry awaits a bound change request for ", subject.as_str()),
        ),
        UnmetExpectation::MissingCheckout { checkout } => words(
            "missing_record",
            concat2("checkout/", checkout.as_str()),
            "expected checkout has no federated record".to_owned(),
        ),
        UnmetExpectation::MissingCheckoutStatus { checkout } => words(
            "missing_status",
            concat2("checkout/", checkout.as_str()),
            "observed checkout has no status".to_owned(),
        ),
        UnmetExpectation::CheckoutConditionFalse { checkout, condition } => words(
            "false_condition",
            concat4("checkout/", checkout.as_str(), ".", condition.as_str()),
            concat2(condition.as_str(), " is false"),
        ),
        UnmetExpectation::CheckoutConditionUnknown { checkout, condition } => words(
            "unknown_condition",
            concat4("checkout/", checkout.as_str(), ".", condition.as_str()),
            concat2(condition.as_str(), " is unknown"),
        ),
        UnmetExpectation::StaleCheckoutEvidence { checkout, condition, observed_at } => words(
            "stale_evidence",
            concat4("checkout/", checkout.as_str(), ".", condition.as_str()),
            prefixed_or_str("observed at ", observed_at, "evidence has no observation time"),
        ),
        UnmetExpectation::MissingChangeRequest { record } => words(
            "missing_record",
            concat2("change_request/", record.as_str()),
            "expected change request has no federated observation".to_owned(),
        ),
        UnmetExpectation::StaleChangeRequest { record, observed_at } => words(
            "stale_evidence",
            concat3("change_request/", record.as_str(), ".state"),
            prefixed_or_str("observed at ", observed_at, "state has no observation time"),
        ),
        UnmetExpectation::ChangeRequestConditionFalse { record, value } => words(
            "false_condition",
            concat3("change_request/", record.as_str(), ".state"),
            prefixed_or_str("state is ", value, "state is unknown"),
        ),
        UnmetExpectation::InvalidCondition { subject, message } => words(
            "invalid_condition",
            subject.clone(),
            message.clone(),
        ),
    }
}

/// A claim of work done, and the ledger of decisions it points to.
#[derive(Debug, PartialEq, Eq)]
pub struct ExplainedDecisionLedger {
    pub vessel: String,
    pub role: String,
    pub claimed_at: Option<String>,
    pub comment_url: Option<String>,
    pub missing: bool,
}

/// One role's work on one vessel.
#[derive(Debug, PartialEq, Eq)]
pub struct CrewWorkState {
    pub vessel: String,
    pub role: String,
    pub phase: CrewWorkPhase,
    pub finished_at: Option<Timestamp>,
    pub decision_ledger_ref: Option<String>,
}

/// Whether the work claims to be done.
pub open spec fn claims(work: CrewWorkState) -> bool {
    work.phase == CrewWorkPhase::Done || work.phase == CrewWorkPhase::HandedBack
}

/// The claims, in order.
pub open spec fn claimed(work: Seq<CrewWorkState>) -> Seq<CrewWorkState> {
    work.filter(|w: CrewWorkState| claims(w))
}

/// `l` reports a claim; one without a ledger is flagged, not left out.
pub open spec fn ledger_of(l: ExplainedDecisionLedger, work: CrewWorkState) -> bool {
    &&& l.vessel@ == work.vessel@
    &&& l.role@ == work.role@
    &&& opt(l.claimed_at) == (match work.finished_at {
        Some(at) => Some(rfc3339_text(at.secs() as i64, at.nanos() as u32)),
        None => None,
    })
    &&& l.comment_url == work.decision_ledger_ref
    &&& l.missing == (work.decision_ledger_ref is None)
}

/// `r` reports every claim.
pub open spec fn ledgers_of(r: Seq<ExplainedDecisionLedger>, work: Seq<CrewWorkState>) -> bool {
    &&& r.len() == claimed(work).len()
    &&& forall|i: int| 0 <= i < r.len() ==> ledger_of(#[trigger] r[i], claimed(work)[i])
}

/// The ledgers of all claims. `work` lists the crews by vessel and role.
pub fn explained_decision_ledgers(work: &Vec<CrewWorkState>) -> (r: Vec<ExplainedDecisionLedger>)
    ensures
        ledgers_of(r@, work@),
{
    let mut r: Vec<ExplainedDecisionLedger> = Vec::new();
    let ghost p = |w: CrewWorkState| claims(w);
    let mut i: usize = 0;
    assert(work@.take(0).filter(p) =~= Seq::<CrewWorkState>::empty()) by {
        reveal(Seq::filter);
    }
    while i < work.len()
        invariant
            i <= work@.len(),
            p == (|w: CrewWorkState| claims(w)),
            ledgers_of(r@, work@.take(i as int)),
        decreases work.len() - i,
    {
        let w = &work[i];
        proof {
            reveal(Seq::filter);
            assert(work@.take(i + 1).drop_last() =~= work@.take(i as int));
            assert(work@.take(i + 1).last() == *w);
        }
        let done = match w.phase {
            CrewWorkPhase::Done | CrewWorkPhase::HandedBack => true,
            _ => false,
        };
        if done {
            let ghost was = r@;
            r.push(
                ExplainedDecisionLedger {
                    vessel: w.vessel.clone(),
                    role: w.role.clone(),
                    claimed_at: match w.finished_at {
                        Some(at) => Some(at.to_rfc3339()),
                        None => None,
                    },
                    comment_url: opt_clone(&w.decision_ledger_ref),
                    missing: w.decision_ledger_ref.is_none(),
                },
            );
            assert forall|k: int| 0 <= k < r@.len() implies ledger_of(
                #[trigger] r@[k],
                claimed(work@.take(i + 1))[k],
            ) by {
                if k < was.len() {
                    assert(r@[k] == was[k]);
                    assert(claimed(work@.take(i + 1))[k] == claimed(work@.take(i as int))[k]);
                }
            }
        }
        i = i + 1;
    }
    assert(work@.take(work@.len() as int) =~= work@);
    r
}

/// A claim without a ledger is flagged, never hidden.
pub proof fn law_missing_ledgers_are_flagged(r: Seq<ExplainedDecisionLedger>, work: Seq<CrewWorkState>, i: int)
    requires
        ledgers_of(r, work),
        0 <= i < work.len(),
        claims(work[i]),
        work[i].decision_ledger_ref is None,
    ensures
        exists|k: int|
            0 <= k < r.len() && (#[trigger] r[k]).missing && r[k].vessel@ == work[i].vessel@ && r[k].role@ == work[i].role@,
{
    let p = |w: CrewWorkState| claims(w);
    work.filter_lemma(p);
    assert(work.contains(work[i]) && p(work[i]));
    assert(claimed(work).contains(work[i]));
    let k = choose|k: int| 0 <= k < claimed(work).len() && claimed(work)[k] == work[i];
    assert(ledger_of(r[k], claimed(work)[k]));
}

/// A convoy record that an explanation may be asked of.
pub struct ConvoySourceRecord {
    pub record_name: String,
    pub role: Option<String>,
    pub project: Option<String>,
    pub phase: Option<ConvoyPhase>,
    pub local: bool,
}

/// What a record is addressed by.
pub open spec fn identity_matches(id: ConvoyAddressIdentity<'_>, s: ConvoySourceRecord) -> bool {
    &&& id.record_name@ == s.record_name@
    &&& crate::text::opt_str(id.role) == opt(s.role)
    &&& crate::text::opt_str(id.project) == opt(s.project)
    &&& id.terminal == (s.phase is Some && crate::model::terminal_phase(s.phase->0))
}

/// `ids` is what the records are addressed by.
pub open spec fn identities_match(ids: Seq<ConvoyAddressIdentity<'_>>, sources: Seq<ConvoySourceRecord>) -> bool {
    &&& ids.len() == sources.len()
    &&& forall|i: int| 0 <= i < ids.len() ==> identity_matches(#[trigger] ids[i], sources[i])
}

fn as_str_opt(o: &Option<String>) -> (r: Option<&str>)
    ensures
        crate::text::opt_str(r) == opt(*o),
{
    match o {
        Some(s) => Some(s.as_str()),
        None => None,
    }
}

/// What the records are addressed by.
pub fn source_identities<'a>(sources: &'a Vec<ConvoySourceRecord>) -> (r: Vec<ConvoyAddressIdentity<'a>>)
    ensures
        identities_match(r@, sources@),
{
    let mut r: Vec<ConvoyAddressIdentity<'a>> = Vec::new();
    let mut i: usize = 0;
    while i < sources.len()
        invariant
            i <= sources@.len(),
            r@.len() == i,
            forall|k: int| 0 <= k < i ==> identity_matches(#[trigger] r@[k], sources@[k]),
        decreases sources.len() - i,
    {
        let s = &sources[i];
        r.push(
            ConvoyAddressIdentity {
                record_name: s.record_name.as_str(),
                role: as_str_opt(&s.role),
                project: as_str_opt(&s.project),
                terminal: match s.phase {
                    Some(phase) => phase.is_terminal(),
                    None => false,
                },
            },
        );
        i = i + 1;
    }
    r
}

/// The record that is explained among some: the last local one, else the last.
pub open spec fn home_record(sources: Seq<ConvoySourceRecord>, at: Seq<int>) -> Option<int>
    decreases at.len(),
{
    if at.len() == 0 {
        None
    } else {
        match home_record(sources, at.drop_last()) {
            Some(best) => if sources[best].local && !sources[at.last()].local {
                Some(best)
            } else {
                Some(at.last())
            },
            None => Some(at.last()),
        }
    }
}

/// The record that a name asks to have explained.
pub fn explain_select(sources: &Vec<ConvoySourceRecord>, name: &str) -> (r: Result<usize, String>)
    ensures
        exists|ids: Seq<ConvoyAddressIdentity<'_>>|
            {
                &&& #[trigger] identities_match(ids, sources@)
                &&& match resolved_indices(ids, name@) {
                    Err(e) => r matches Err(x) && x@ == e,
                    Ok(found) => match home_record(sources@, found) {
                        Some(i) => r matches Ok(x) && x == i && 0 <= i < sources@.len(),
                        None => r matches Err(x) && x@ == "no convoy matches `"@ + name@ + "`"@,
                    },
                }
            },
{
    let ids = source_identities(sources);
    match resolve_convoy_candidate_indices(&ids, name) {
        Err(e) => Err(e),
        Ok(found) => {
            let mut best: Option<usize> = None;
            let mut k: usize = 0;
            while k < found.len()
                invariant
                    k <= found@.len(),
                    forall|x: int| 0 <= x < found@.len() ==> #[trigger] found@[x] < sources@.len(),
                    match best {
                        Some(b) => b < sources@.len() && home_record(sources@, ints(found@).take(k as int)) == Some(
                            b as int,
                        ),
                        None => home_record(sources@, ints(found@).take(k as int)) is None,
                    },
                decreases found.len() - k,
            {
                let i: usize = found[k];
                assert(ints(found@).take(k + 1).drop_last() =~= ints(found@).take(k as int));
                assert(ints(found@).take(k + 1).last() == i);
                best = match best {
                    Some(b) => {
                        if sources[b].local && !sources[i].local {
                            Some(b)
                        } else {
                            Some(i)
                        }
                    },
                    None => Some(i),
                };
                k = k + 1;
            }
            assert(ints(found@).take(found@.len() as int) =~= ints(found@));
            match best {
                Some(i) => Ok(i),
                None => Err(concat3("no convoy matches `", name, "`")),
            }
        },
    }
}

/// A checkout record that came from some source.
pub struct CheckoutSource {
    pub name: String,
    pub resource_version: String,
    pub provenance: Provenance,
}

/// The checkout chosen for a name, among the sources.
pub struct SelectedCheckout {
    pub name: String,
    pub resource_version: String,
    pub integration: Option<CheckoutIntegration>,
}

/// An expected checkout, explained.
#[derive(Debug, PartialEq, Eq)]
pub struct ExplainedCheckout {
    pub name: String,
    pub observed: bool,
    pub provenance: Option<RecordProvenance>,
    pub clean: Option<ExplainedCondition>,
    pub pushed: Option<ExplainedCondition>,
    pub landed: Option<ExplainedCondition>,
}

/// The first source of exactly this version of a checkout.
pub open spec fn source_of(sources: Seq<CheckoutSource>, name: Seq<char>, version: Seq<char>) -> Option<Provenance>
    decreases sources.len(),
{
    if sources.len() == 0 {
        None
    } else if sources[0].name@ == name && sources[0].resource_version@ == version {
        Some(sources[0].provenance)
    } else {
        source_of(sources.drop_first(), name, version)
    }
}

/// `e` puts an optional condition in words.
pub open spec fn condition_words_opt(
    e: Option<ExplainedCondition>,
    c: Option<IntegrationCondition>,
    now: Timestamp,
    ttl: int,
) -> bool {
    match (e, c) {
        (None, None) => true,
        (Some(e), Some(c)) => condition_words(e, c, now, ttl),
        _ => false,
    }
}

/// `e` explains an expected checkout.
pub open spec fn checkout_explained(
    e: ExplainedCheckout,
    name: Seq<char>,
    selected: Map<Seq<char>, SelectedCheckout>,
    sources: Seq<CheckoutSource>,
    node: Seq<char>,
    now: Timestamp,
    ttl: int,
) -> bool {
    let chosen = selected.dom().contains(name);
    let integration = if chosen {
        selected[name].integration
    } else {
        None
    };
    let provenance = if chosen {
        source_of(sources, selected[name].name@, selected[name].resource_version@)
    } else {
        None
    };
    &&& e.name@ == name
    &&& e.observed == chosen
    &&& explained_opt(e.provenance, provenance, node)
    &&& match integration {
        Some(i) => condition_words_opt(e.clean, Some(i.clean), now, ttl) && condition_words_opt(
            e.pushed,
            Some(i.pushed),
            now,
            ttl,
        ) && condition_words_opt(e.landed, Some(i.landed), now, ttl),
        None => e.clean is None && e.pushed is None && e.landed is None,
    }
}

fn find_source<'a>(sources: &'a Vec<CheckoutSource>, name: &str, version: &str) -> (r: Option<&'a Provenance>)
    ensures
        match r {
            Some(p) => source_of(sources@, name@, version@) == Some(*p),
            None => source_of(sources@, name@, version@) is None,
        },
{
    let mut i: usize = 0;
    assert(sources@.skip(0) =~= sources@);
    while i < sources.len()
        invariant
            i <= sources@.len(),
            source_of(sources@, name@, version@) == source_of(sources@.skip(i as int), name@, version@),
        decreases sources.len() - i,
    {
        let s = &sources[i];
        assert(sources@.skip(i as int)[0] == *s);
        assert(sources@.skip(i as int).drop_first() =~= sources@.skip(i + 1));
        if str_eq(s.name.as_str(), name) && str_eq(s.resource_version.as_str(), version) {
            return Some(&s.provenance);
        }
        i = i + 1;
    }
    None
}

fn explain_checkout(
    name: &str,
    selected: &OrderedMap<SelectedCheckout>,
    sources: &Vec<CheckoutSource>,
    node: &str,
    now: &Timestamp,
    ttl_nanos: i128,
) -> (e: ExplainedCheckout)
    ensures
        checkout_explained(e, name@, selected@, sources@, node@, *now, ttl_nanos as int),
{
    match selected.get(name) {
        None => ExplainedCheckout {
            name: name.to_owned(),
            observed: false,
            provenance: None,
            clean: None,
            pushed: None,
            landed: None,
        },
        Some(checkout) => {
            let provenance = match find_source(
                sources,
                checkout.name.as_str(),
                checkout.resource_version.as_str(),
            ) {
                Some(p) => Some(explained_provenance(p, node)),
                None => None,
            };
            match &checkout.integration {
                None => ExplainedCheckout {
                    name: name.to_owned(),
                    observed: true,
                    provenance,
                    clean: None,
                    pushed: None,
                    landed: None,
                },
                Some(i) => ExplainedCheckout {
                    name: name.to_owned(),
                    observed: true,
                    provenance,
                    clean: Some(explain_condition(&i.clean, now, ttl_nanos)),
                    pushed: Some(explain_condition(&i.pushed, now, ttl_nanos)),
                    landed: Some(explain_condition(&i.landed, now, ttl_nanos)),
                },
            }
        },
    }
}

/// A change request record that came from some source.
pub struct ChangeRequestSource {
    pub name: String,
    pub provenance: Provenance,
    /// The record as it would be shown.
    pub fields: Option<String>,
    pub observed_at: Option<Timestamp>,
}

/// An expected change request, explained.
#[derive(Debug, PartialEq, Eq)]
pub struct ExplainedChangeRequest {
    pub name: String,
    pub bound: bool,
    pub observed: bool,
    pub provenance: Option<RecordProvenance>,
    pub fields: Option<String>,
    pub observed_at: Option<String>,
    pub freshness: EvidenceFreshness,
}

/// Which source of a change request counts: the first local one, else the first.
pub open spec fn chosen_request(sources: Seq<ChangeRequestSource>, name: Seq<char>) -> Option<int>
    decreases sources.len(),
{
    if sources.len() == 0 {
        None
    } else {
        let before = chosen_request(sources.drop_last(), name);
        if sources.last().name@ != name {
            before
        } else {
            match before {
                None => Some(sources.len() - 1),
                Some(i) => if !(sources[i].provenance is Local) && sources.last().provenance is Local {
                    Some(sources.len() - 1)
                } else {
                    Some(i)
                },
            }
        }
    }
}

fn find_request(sources: &Vec<ChangeRequestSource>, name: &str) -> (r: Option<usize>)
    ensures
        match r {
            Some(i) => i < sources@.len() && chosen_request(sources@, name@) == Some(i as int),
            None => chosen_request(sources@, name@) is None,
        },
{
    let mut best: Option<usize> = None;
    let mut i: usize = 0;
    while i < sources.len()
        invariant
            i <= sources@.len(),
            match best {
                Some(b) => b < i && chosen_request(sources@.take(i as int), name@) == Some(b as int),
                None => chosen_request(sources@.take(i as int), name@) is None,
            },
        decreases sources.len() - i,
    {
        assert(sources@.take(i + 1).drop_last() =~= sources@.take(i as int));
        assert(sources@.take(i + 1).last() == sources@[i as int]);
        if str_eq(sources[i].name.as_str(), name) {
            best = match best {
                None => Some(i),
                Some(b) => {
                    assert(sources@.take(i + 1)[b as int] == sources@[b as int]);
                    let held_local = match sources[b].provenance {
                        Provenance::Local => true,
                        _ => false,
                    };
                    let new_local = match sources[i].provenance {
                        Provenance::Local => true,
                        _ => false,
                    };
                    if !held_local && new_local {
                        Some(i)
                    } else {
                        Some(b)
                    }
                },
            };
        }
        i = i + 1;
    }
    assert(sources@.take(sources@.len() as int) =~= sources@);
    best
}

/// `e` explains an expected change request.
pub open spec fn request_explained(
    e: ExplainedChangeRequest,
    name: Seq<char>,
    bound: Option<Seq<char>>,
    sources: Seq<ChangeRequestSource>,
    node: Seq<char>,
    now: Timestamp,
    stale_after: int,
) -> bool {
    &&& e.name@ == name
    &&& e.bound == (bound == Some(name))
    &&& match chosen_request(sources, name) {
        None => !e.observed && e.provenance is None && e.fields is None && e.observed_at is None && e.freshness
            == EvidenceFreshness::Missing,
        Some(i) => {
            let source = sources[i];
            &&& e.observed
            &&& explained_opt(e.provenance, Some(source.provenance), node)
            &&& e.fields == source.fields
            &&& opt(e.observed_at) == (match source.observed_at {
                Some(at) => Some(rfc3339_text(at.secs() as i64, at.nanos() as u32)),
                None => None,
            })
            &&& e.freshness == freshness(parts(source.observed_at), now, stale_after)
        },
    }
}

fn explain_change_request(
    name: &str,
    bound: &Option<String>,
    sources: &Vec<ChangeRequestSource>,
    node: &str,
    now: &Timestamp,
    stale_after_nanos: i128,
) -> (e: ExplainedChangeRequest)
    ensures
        request_explained(e, name@, opt(*bound), sources@, node@, *now, stale_after_nanos as int),
{
    let is_bound = opt_is(bound, name);
    match find_request(sources, name) {
        None => ExplainedChangeRequest {
            name: name.to_owned(),
            bound: is_bound,
            observed: false,
            provenance: None,
            fields: None,
            observed_at: None,
            freshness: EvidenceFreshness::Missing,
        },
        Some(i) => {
            let source = &sources[i];
            ExplainedChangeRequest {
                name: name.to_owned(),
                bound: is_bound,
                observed: true,
                provenance: Some(explained_provenance(&source.provenance, node)),
                fields: opt_clone(&source.fields),
                observed_at: match source.observed_at {
                    Some(at) => Some(at.to_rfc3339()),
                    None => None,
                },
                freshness: observed_freshness(&source.observed_at, now, stale_after_nanos),
            }
        },
    }
}

/// What a convoy's settlement rests on.
#[derive(Debug, Clone, Copy, PartialEq, Eq, Structural)]
pub enum SettlementMode {
    NoExit,
    ClaimExit,
    WorldTerminal,
}

/// The settlement, put in words.
#[derive(Debug, PartialEq, Eq)]
pub struct ExplainedSettlement {
    pub mode: String,
    pub satisfied: bool,
    pub unmet: Vec<ExplainedUnmetExpectation>,
}

/// The settlement as it was evaluated.
pub struct SettlementEvaluation {
    pub mode: SettlementMode,
    pub satisfied: bool,
    pub unmet: Vec<UnmetExpectation>,
}

/// `e` puts a settlement in words.
pub open spec fn settlement_words(e: ExplainedSettlement, s: SettlementEvaluation, standing: Seq<char>) -> bool {
    &&& e.mode@ == (match s.mode {
        SettlementMode::NoExit => standing,
        SettlementMode::ClaimExit => "claim_exit"@,
        SettlementMode::WorldTerminal => "world_terminal"@,
    })
    &&& e.satisfied == s.satisfied
    &&& e.unmet@.len() == s.unmet@.len()
    &&& forall|i: int|
        0 <= i < e.unmet@.len() ==> ((#[trigger] e.unmet@[i]).reason@, e.unmet@[i].subject@, e.unmet@[i].detail@)
            == unmet_words(s.unmet@[i])
}

/// Puts a settlement in words; `standing` is the word for a convoy without an exit.
pub fn explain_settlement(s: &SettlementEvaluation, standing: &str) -> (e: ExplainedSettlement)
    ensures
        settlement_words(e, *s, standing@),
{
    let mut unmet: Vec<ExplainedUnmetExpectation> = Vec::new();
    let mut i: usize = 0;
    while i < s.unmet.len()
        invariant
            i <= s.unmet@.len(),
            unmet@.len() == i,
            forall|k: int|
                0 <= k < i ==> ((#[trigger] unmet@[k]).reason@, unmet@[k].subject@, unmet@[k].detail@) == unmet_words(
                    s.unmet@[k],
                ),
        decreases s.unmet.len() - i,
    {
        unmet.push(explain_unmet_expectation(&s.unmet[i]));
        i = i + 1;
    }
    ExplainedSettlement {
        mode: match s.mode {
            SettlementMode::NoExit => standing.to_owned(),
            SettlementMode::ClaimExit => "claim_exit".to_owned(),
            SettlementMode::WorldTerminal => "world_terminal".to_owned(),
        },
        satisfied: s.satisfied,
        unmet,
    }
}

/// Who waits on a subscription.
#[derive(Debug, PartialEq, Eq)]
#[allow(inconsistent_fields)]
pub enum LeafWatcher {
    WaitCaller,
    ReconcilerWake { convoy: String },
    TurnDelivery { convoy: String },
}

/// A leaf that fired.
pub struct LeafFiring {
    pub leaf: String,
    pub value: String,
    pub fired_at: Timestamp,
}

pub struct LeafSubscription {
    pub id: String,
    pub watcher: LeafWatcher,
    pub leaves: Vec<String>,
    pub firings: Vec<LeafFiring>,
}

#[derive(Debug, PartialEq, Eq)]
pub struct ExplainedLeafFiring {
    pub leaf: String,
    pub value: String,
    pub fired_at: String,
}

#[derive(Debug, PartialEq, Eq)]
pub struct ExplainedSubscription {
    pub id: String,
    pub watcher: String,
    pub leaves: Vec<String>,
    pub last_leaf_firings: Vec<ExplainedLeafFiring>,
}

/// Whether a subscription waits on behalf of the convoy.
pub open spec fn waits_for(watcher: LeafWatcher, convoy: Seq<char>) -> bool {
    match watcher {
        LeafWatcher::WaitCaller => false,
        LeafWatcher::ReconcilerWake { convoy: c } => c@ == convoy,
        LeafWatcher::TurnDelivery { convoy: c } => c@ == convoy,
    }
}

/// The subscriptions that wait on behalf of the convoy.
pub open spec fn waiting_for(subscriptions: Seq<LeafSubscription>, convoy: Seq<char>) -> Seq<LeafSubscription>
    decreases subscriptions.len(),
{
    if subscriptions.len() == 0 {
        Seq::empty()
    } else {
        let before = waiting_for(subscriptions.drop_last(), convoy);
        if waits_for(subscriptions.last().watcher, convoy) {
            before.push(subscriptions.last())
        } else {
            before
        }
    }
}

/// `e` explains a firing.
pub open spec fn firing_explained(e: ExplainedLeafFiring, f: LeafFiring) -> bool {
    e.leaf@ == f.leaf@ && e.value@ == f.value@ && e.fired_at@ == rfc3339_text(
        f.fired_at.secs() as i64,
        f.fired_at.nanos() as u32,
    )
}

/// `e` explains a subscription.
pub open spec fn subscription_explained(e: ExplainedSubscription, s: LeafSubscription) -> bool {
    &&& e.id@ == s.id@
    &&& e.watcher@ == (match s.watcher {
        LeafWatcher::WaitCaller => "wait_caller"@,
        LeafWatcher::ReconcilerWake { .. } => "reconciler_wake"@,
        LeafWatcher::TurnDelivery { .. } => "turn_delivery"@,
    })
    &&& e.leaves@ == s.leaves@
    &&& e.last_leaf_firings@.len() == s.firings@.len()
    &&& forall|i: int|
        0 <= i < s.firings@.len() ==> firing_explained(#[trigger] e.last_leaf_firings@[i], s.firings@[i])
}

/// `list` explains the subscriptions that wait on behalf of the convoy.
pub open spec fn subscriptions_explained(list: Seq<ExplainedSubscription>, subscriptions: Seq<LeafSubscription>, convoy: Seq<char>) -> bool {
    let waiting = waiting_for(subscriptions, convoy);
    &&& list.len() == waiting.len()
    &&& forall|i: int| 0 <= i < list.len() ==> subscription_explained(#[trigger] list[i], waiting[i])
}

fn explain_subscription(s: &LeafSubscription) -> (e: ExplainedSubscription)
    ensures
        subscription_explained(e, *s),
{
    let mut firings: Vec<ExplainedLeafFiring> = Vec::new();
    let mut i: usize = 0;
    while i < s.firings.len()
        invariant
            i <= s.firings@.len(),
            firings@.len() == i,
            forall|k: int| 0 <= k < i ==> firing_explained(#[trigger] firings@[k], s.firings@[k]),
        decreases s.firings.len() - i,
    {
        firings.push(
            ExplainedLeafFiring {
                leaf: s.firings[i].leaf.clone(),
                value: s.firings[i].value.clone(),
                fired_at: s.firings[i].fired_at.to_rfc3339(),
            },
        );
        i = i + 1;
    }
    ExplainedSubscription {
        id: s.id.clone(),
        watcher: match s.watcher {
            LeafWatcher::WaitCaller => "wait_caller".to_owned(),
            LeafWatcher::ReconcilerWake { .. } => "reconciler_wake".to_owned(),
            LeafWatcher::TurnDelivery { .. } => "turn_delivery".to_owned(),
        },
        leaves: strs_clone(&s.leaves),
        last_leaf_firings: firings,
    }
}

/// The subscriptions that wait on behalf of a convoy.
pub fn explain_subscriptions(subscriptions: &Vec<LeafSubscription>, convoy: &str) -> (r: Vec<ExplainedSubscription>)
    ensures
        subscriptions_explained(r@, subscriptions@, convoy@),
{
    let mut r: Vec<ExplainedSubscription> = Vec::new();
    let mut i: usize = 0;
    while i < subscriptions.len()
        invariant
            i <= subscriptions@.len(),
            subscriptions_explained(r@, subscriptions@.take(i as int), convoy@),
        decreases subscriptions.len() - i,
    {
        let s = &subscriptions[i];
        assert(subscriptions@.take(i + 1).drop_last() =~= subscriptions@.take(i as int));
        assert(subscriptions@.take(i + 1).last() == *s);
        let wanted = match &s.watcher {
            LeafWatcher::WaitCaller => false,
            LeafWatcher::ReconcilerWake { convoy: c } => str_eq(c.as_str(), convoy),
            LeafWatcher::TurnDelivery { convoy: c } => str_eq(c.as_str(), convoy),
        };
        if wanted {
            let ghost was = r@;
            r.push(explain_subscription(s));
            assert forall|k: int| 0 <= k < r@.len() implies subscription_explained(
                #[trigger] r@[k],
                waiting_for(subscriptions@.take(i + 1), convoy@)[k],
            ) by {
                if k < was.len() {
                    assert(r@[k] == was[k]);
                }
            }
        }
        i = i + 1;
    }
    assert(subscriptions@.take(subscriptions@.len() as int) =~= subscriptions@);
    r
}

/// A session that messages may be delivered to.
pub struct DeliverySession {
    pub name: String,
    pub convoy: Option<String>,
    pub role: String,
    pub delivered_message_id: Option<String>,
}

/// What was last delivered to a crew member.
#[derive(Debug, PartialEq, Eq)]
pub struct ExplainedCrewDelivery {
    pub session: String,
    pub role: String,
    /// No rung is recorded yet; none is made up from the session's state.
    pub last_delivery_rung: Option<String>,
    pub delivered_message_id: Option<String>,
}

impl Ranked for ExplainedCrewDelivery {
    open spec fn ranks_before(self, other: Self) -> bool {
        lex_le(self.session@, other.session@)
    }

    proof fn ranks_total(a: Self, b: Self) {
        lemma_lex_total(a.session@, b.session@);
        if lex_lt(a.session@, b.session@) {
            lemma_lex_asymmetric(a.session@, b.session@);
        }
    }

    proof fn ranks_transitive(a: Self, b: Self, c: Self) {
        lemma_lex_total(b.session@, a.session@);
        lemma_lex_total(c.session@, b.session@);
        if lex_lt(c.session@, a.session@) && lex_lt(a.session@, b.session@) {
            lemma_lex_transitive(c.session@, a.session@, b.session@);
        }
    }

    fn rank_before(&self, other: &Self) -> (r: bool) {
        !str_lt(other.session.as_str(), self.session.as_str())
    }
}

/// The sessions of the convoy.
pub open spec fn convoy_sessions(sessions: Seq<DeliverySession>, convoy: Seq<char>) -> Seq<DeliverySession>
    decreases sessions.len(),
{
    if sessions.len() == 0 {
        Seq::empty()
    } else {
        let before = convoy_sessions(sessions.drop_last(), convoy);
        if opt(sessions.last().convoy) == Some(convoy) {
            before.push(sessions.last())
        } else {
            before
        }
    }
}

/// `list` reports what was delivered to each session of the convoy.
pub open spec fn deliveries_of(list: Seq<ExplainedCrewDelivery>, sessions: Seq<DeliverySession>, convoy: Seq<char>) -> bool {
    let mine = convoy_sessions(sessions, convoy);
    &&& list.len() == mine.len()
    &&& forall|i: int|
        0 <= i < list.len() ==> {
            &&& (#[trigger] list[i]).session@ == mine[i].name@
            &&& list[i].role@ == mine[i].role@
            &&& list[i].last_delivery_rung is None
            &&& list[i].delivered_message_id == mine[i].delivered_message_id
        }
}

/// What was delivered to the crew of a convoy, by session.
pub fn explain_deliveries(sessions: &Vec<DeliverySession>, convoy: &str) -> (r: Vec<ExplainedCrewDelivery>)
    ensures
        exists|list: Seq<ExplainedCrewDelivery>|
            #[trigger] deliveries_of(list, sessions@, convoy@) && r@ == rank_sort(list),
{
    let mut list: Vec<ExplainedCrewDelivery> = Vec::new();
    let mut i: usize = 0;
    while i < sessions.len()
        invariant
            i <= sessions@.len(),
            deliveries_of(list@, sessions@.take(i as int), convoy@),
        decreases sessions.len() - i,
    {
        let s = &sessions[i];
        assert(sessions@.take(i + 1).drop_last() =~= sessions@.take(i as int));
        assert(sessions@.take(i + 1).last() == *s);
        if opt_is(&s.convoy, convoy) {
            list.push(
                ExplainedCrewDelivery {
                    session: s.name.clone(),
                    role: s.role.clone(),
                    last_delivery_rung: None,
                    delivered_message_id: opt_clone(&s.delivered_message_id),
                },
            );
        }
        i = i + 1;
    }
    assert(sessions@.take(sessions@.len() as int) =~= sessions@);
    sort_ranked(list)
}

/// What an explanation is made from, once its convoy is known.
pub struct ExplainInput {
    pub namespace: String,
    /// The name that was asked for.
    pub name: String,
    pub node_id: String,
    pub phase: Option<ConvoyPhase>,
    pub crew_work: Vec<CrewWorkState>,
    pub expected_checkouts: Result<Vec<String>, String>,
    pub selected_checkouts: OrderedMap<SelectedCheckout>,
    pub checkout_sources: Vec<CheckoutSource>,
    /// The records of the change requests the convoy should have.
    pub expected_change_requests: Result<Vec<String>, String>,
    pub bound_change_request: Result<Option<String>, String>,
    pub change_request_sources: Vec<ChangeRequestSource>,
    pub settlement: SettlementEvaluation,
    /// The word for a convoy without an exit.
    pub standing_mode: String,
    pub subscriptions: Vec<LeafSubscription>,
    pub sessions: Vec<DeliverySession>,
    pub evidence_ttl: AgeLimit,
    pub change_request_stale_after: AgeLimit,
}

/// Why a convoy stands where it stands.
#[derive(Debug, PartialEq, Eq)]
pub struct ConvoyExplanation {
    pub namespace: String,
    pub convoy: String,
    pub phase: String,
    pub evidence_ttl_seconds: u64,
    pub change_request_stale_after_seconds: u64,
    pub checkouts: Vec<ExplainedCheckout>,
    pub change_requests: Vec<ExplainedChangeRequest>,
    pub subscriptions: Vec<ExplainedSubscription>,
    pub crew_deliveries: Vec<ExplainedCrewDelivery>,
    pub decision_ledgers: Vec<ExplainedDecisionLedger>,
    pub settlement: ExplainedSettlement,
}

/// An age from which on evidence no longer counts: whole seconds, and the
/// nanoseconds beyond them.
#[derive(Debug, Clone, Copy, PartialEq, Eq, Structural)]
pub struct AgeLimit {
    pub secs: u64,
    pub subsec_nanos: u32,
}

/// A limit in nanoseconds.
pub open spec fn limit_nanos(limit: AgeLimit) -> int {
    limit.secs * 1_000_000_000 + limit.subsec_nanos
}

fn nanos_of(limit: AgeLimit) -> (r: i128)
    ensures
        r == limit_nanos(limit),
{
    limit.secs as i128 * 1_000_000_000 + limit.subsec_nanos as i128
}

/// `x` explains the convoy.
pub open spec fn explanation_of(
    x: ConvoyExplanation,
    input: ExplainInput,
    checkouts: Seq<Seq<char>>,
    requests: Seq<Seq<char>>,
    bound: Option<Seq<char>>,
    now: Timestamp,
) -> bool {
    &&& x.namespace@ == input.namespace@
    &&& x.convoy@ == input.name@
    &&& x.phase@ == (match input.phase {
        Some(phase) => phase_name(phase),
        None => "Unknown"@,
    })
    &&& x.evidence_ttl_seconds == input.evidence_ttl.secs
    &&& x.change_request_stale_after_seconds == input.change_request_stale_after.secs
    &&& x.checkouts@.len() == checkouts.len()
    &&& forall|i: int|
        0 <= i < checkouts.len() ==> checkout_explained(
            #[trigger] x.checkouts@[i],
            checkouts[i],
            input.selected_checkouts@,
            input.checkout_sources@,
            input.node_id@,
            now,
            limit_nanos(input.evidence_ttl),
        )
    &&& x.change_requests@.len() == requests.len()
    &&& forall|i: int|
        0 <= i < requests.len() ==> request_explained(
            #[trigger] x.change_requests@[i],
            requests[i],
            bound,
            input.change_request_sources@,
            input.node_id@,
            now,
            limit_nanos(input.change_request_stale_after),
        )
    &&& subscriptions_explained(x.subscriptions@, input.subscriptions@, input.name@)
    &&& exists|list: Seq<ExplainedCrewDelivery>|
        #[trigger] deliveries_of(list, input.sessions@, input.name@) && x.crew_deliveries@ == rank_sort(list)
    &&& ledgers_of(x.decision_ledgers@, input.crew_work@)
    &&& settlement_words(x.settlement, input.settlement, input.standing_mode@)
}

/// What the explanation comes to: the first derivation that failed, or all of it.
pub open spec fn explained_convoy(input: ExplainInput, now: Timestamp, r: Result<ConvoyExplanation, String>) -> bool {
    match (input.expected_checkouts, input.expected_change_requests, input.bound_change_request) {
        (Err(e), _, _) => r matches Err(x) && x@ == "derive expected checkouts: "@ + e@,
        (Ok(_), Err(e), _) => r matches Err(x) && x@ == "derive expected change requests: "@ + e@,
        (Ok(_), Ok(_), Err(e)) => r matches Err(x) && x@ == "derive bound change request: "@ + e@,
        (Ok(checkouts), Ok(requests), Ok(bound)) => r matches Ok(x) && explanation_of(
            x,
            input,
            strs(checkouts@),
            crate::ordered::sorted_unique(strs(requests@)),
            opt(bound),
            now,
        ),
    }
}

pub fn explain_convoy(input: &ExplainInput, now: &Timestamp) -> (r: Result<ConvoyExplanation, String>)
    ensures
        explained_convoy(*input, *now, r),
{
    let ttl: i128 = nanos_of(input.evidence_ttl);
    let stale_after: i128 = nanos_of(input.change_request_stale_after);
    let expected = match &input.expected_checkouts {
        Err(e) => {
            return Err(concat2("derive expected checkouts: ", e.as_str()));
        },
        Ok(expected) => expected,
    };
    let mut checkouts: Vec<ExplainedCheckout> = Vec::new();
    let mut i: usize = 0;
    while i < expected.len()
        invariant
            i <= expected@.len(),
            ttl == limit_nanos(input.evidence_ttl),
            checkouts@.len() == i,
            forall|k: int|
                0 <= k < i ==> checkout_explained(
                    #[trigger] checkouts@[k],
                    strs(expected@)[k],
                    input.selected_checkouts@,
                    input.checkout_sources@,
                    input.node_id@,
                    *now,
                    ttl as int,
                ),
        decreases expected.len() - i,
    {
        checkouts.push(
            explain_checkout(
                expected[i].as_str(),
                &input.selected_checkouts,
                &input.checkout_sources,
                input.node_id.as_str(),
                now,
                ttl,
            ),
        );
        i = i + 1;
    }
    let requests = match &input.expected_change_requests {
        Err(e) => {
            return Err(concat2("derive expected change requests: ", e.as_str()));
        },
        Ok(requests) => crate::ordered::sort_dedup(requests),
    };
    let bound = match &input.bound_change_request {
        Err(e) => {
            return Err(concat2("derive bound change request: ", e.as_str()));
        },
        Ok(bound) => bound,
    };
    let mut change_requests: Vec<ExplainedChangeRequest> = Vec::new();
    let mut j: usize = 0;
    while j < requests.len()
        invariant
            j <= requests@.len(),
            stale_after == limit_nanos(input.change_request_stale_after),
            change_requests@.len() == j,
            forall|k: int|
                0 <= k < j ==> request_explained(
                    #[trigger] change_requests@[k],
                    strs(requests@)[k],
                    opt(*bound),
                    input.change_request_sources@,
                    input.node_id@,
                    *now,
                    stale_after as int,
                ),
        decreases requests.len() - j,
    {
        change_requests.push(
            explain_change_request(
                requests[j].as_str(),
                bound,
                &input.change_request_sources,
                input.node_id.as_str(),
                now,
                stale_after,
            ),
        );
        j = j + 1;
    }
    let phase = match input.phase {
        Some(phase) => phase_text(phase),
        None => "Unknown".to_owned(),
    };
    Ok(
        ConvoyExplanation {
            namespace: input.namespace.clone(),
            convoy: input.name.clone(),
            phase,
            evidence_ttl_seconds: input.evidence_ttl.secs,
            change_request_stale_after_seconds: input.change_request_stale_after.secs,
            checkouts,
            change_requests,
            subscriptions: explain_subscriptions(&input.subscriptions, input.name.as_str()),
            crew_deliveries: explain_deliveries(&input.sessions, input.name.as_str()),
            decision_ledgers: explained_decision_ledgers(&input.crew_work),
            settlement: explain_settlement(&input.settlement, input.standing_mode.as_str()),
        },
    )
}

} // verus!
