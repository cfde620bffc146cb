//! What holds of every explanation of a convoy.
use vstd::prelude::*;

use crate::address::ConvoyAddressIdentity;
use crate::evidence::{EvidenceFreshness, IntegrationCondition};
use crate::explain::{
    chosen_request, claimed, convoy_sessions, deliveries_of, explained_convoy, home_record, identities_match, ledgers_of,
    settlement_words, source_of, subscriptions_explained, waiting_for, ChangeRequestSource, CheckoutSource, ConvoyExplanation,
    ConvoySourceRecord, CrewWorkState, DeliverySession, ExplainInput, ExplainedCondition, ExplainedCrewDelivery, ExplainedDecisionLedger,
    ExplainedSettlement, ExplainedSubscription, LeafSubscription, LeafWatcher, SettlementEvaluation, UnmetExpectation,
};
use crate::model::{ConditionValue, ConvoyPhase};
use crate::ordered::{lemma_sorted_unique_exists, sorted_unique};
use crate::sorting::{lemma_rank_sort, lemma_rank_sort_keeps, rank_sort};
use crate::text::{holds, opt, strs};
use crate::time::{instant_in, span, Timestamp};

verus! {

/// An explanation is given when all that it rests on could be made out, and
/// it is of the convoy in question: of its name, its namespace and its phase.
pub proof fn law_explanations_are_of_their_convoy(input: ExplainInput, now: Timestamp, r: Result<ConvoyExplanation, String>)
    requires
        explained_convoy(input, now, r),
    ensures
        r is Ok <==> input.expected_checkouts is Ok && input.expected_change_requests is Ok && input.bound_change_request is Ok,
        r matches Ok(x) ==> {
            &&& x.namespace@ == input.namespace@
            &&& x.convoy@ == input.name@
            &&& x.evidence_ttl_seconds == input.evidence_ttl.secs
            &&& x.change_request_stale_after_seconds == input.change_request_stale_after.secs
            &&& x.phase@ == (match input.phase {
                None => "Unknown"@,
                Some(ConvoyPhase::Pending) => "Pending"@,
                Some(ConvoyPhase::Active) => "Active"@,
                Some(ConvoyPhase::Interrupted) => "Interrupted"@,
                Some(ConvoyPhase::Anchored) => "Anchored"@,
                Some(ConvoyPhase::Landing) => "Landing"@,
                Some(ConvoyPhase::Landed) => "Landed"@,
                Some(ConvoyPhase::Failed) => "Failed"@,
                Some(ConvoyPhase::Cancelled) => "Cancelled"@,
                Some(ConvoyPhase::Abandoned) => "Abandoned"@,
            })
        },
{
}

/// How old an observation is taken to be: it is missing where there is none
/// or where it lies ahead, fresh while it is younger than the limit, and stale
/// from then on.
pub open spec fn aged(observed: Option<(int, int)>, now: Timestamp, limit: int, freshness: EvidenceFreshness) -> bool {
    match observed {
        None => freshness == EvidenceFreshness::Missing,
        Some(at) => {
            let age = span(now.secs(), now.nanos(), at.0, at.1);
            &&& freshness == EvidenceFreshness::Missing <==> age < 0
            &&& freshness == EvidenceFreshness::Fresh <==> 0 <= age < limit
            &&& freshness == EvidenceFreshness::Stale <==> age >= 0 && age >= limit
        },
    }
}

/// Whether a condition is passed on as it is.
pub open spec fn tells(told: Option<ExplainedCondition>, condition: IntegrationCondition, now: Timestamp, limit: int) -> bool {
    told matches Some(e) && {
        &&& condition.value == ConditionValue::True ==> e.value@ == "true"@
        &&& condition.value == ConditionValue::False ==> e.value@ == "false"@
        &&& condition.value == ConditionValue::Unknown ==> e.value@ == "unknown"@
        &&& opt(e.observed_at) == opt(condition.observed_at)
        &&& e.details@ == condition.details@
        &&& aged(
            match condition.observed_at {
                Some(text) => instant_in(text@),
                None => None,
            },
            now,
            limit,
            e.freshness,
        )
    }
}

proof fn lemma_source(sources: Seq<CheckoutSource>, name: Seq<char>, version: Seq<char>)
    ensures
        source_of(sources, name, version) matches Some(p) ==> exists|i: int|
            0 <= i < sources.len() && (#[trigger] sources[i]).name@ == name && sources[i].resource_version@ == version
                && sources[i].provenance == p,
        source_of(sources, name, version) is None ==> forall|i: int|
            0 <= i < sources.len() ==> !((#[trigger] sources[i]).name@ == name && sources[i].resource_version@ == version),
    decreases sources.len(),
{
    if sources.len() > 0 && !(sources[0].name@ == name && sources[0].resource_version@ == version) {
        let rest = sources.drop_first();
        lemma_source(rest, name, version);
        if source_of(rest, name, version) is Some {
            let p = source_of(rest, name, version)->0;
            let i = choose|i: int|
                0 <= i < rest.len() && (#[trigger] rest[i]).name@ == name && rest[i].resource_version@ == version && rest[i].provenance
                    == p;
            assert(sources[i + 1] == rest[i]);
        } else {
            assert forall|i: int| 0 <= i < sources.len() implies !((#[trigger] sources[i]).name@ == name
                && sources[i].resource_version@ == version) by {
                if i > 0 {
                    assert(rest[i - 1] == sources[i]);
                }
            }
        }
    }
}

/// Each checkout that is expected is explained, in its place: observed where
/// a record of it was found, with all three of its conditions, and from where
/// a record of the same name and version came.
pub proof fn law_expected_checkouts_are_explained(input: ExplainInput, now: Timestamp, x: ConvoyExplanation, i: int)
    requires
        explained_convoy(input, now, Ok(x)),
        input.expected_checkouts matches Ok(expected) && 0 <= i < expected@.len(),
    ensures
        x.checkouts@.len() == input.expected_checkouts->Ok_0@.len(),
        ({
            let name = input.expected_checkouts->Ok_0@[i]@;
            let e = x.checkouts@[i];
            let limit = input.evidence_ttl.secs * 1_000_000_000 + input.evidence_ttl.subsec_nanos;
            &&& e.name@ == name
            &&& e.observed == input.selected_checkouts@.dom().contains(name)
            &&& !e.observed ==> e.clean is None && e.pushed is None && e.landed is None && e.provenance is None
            &&& e.observed ==> {
                let found = input.selected_checkouts@[name];
                &&& (found.integration matches Some(integration) ==> tells(e.clean, integration.clean, now, limit) && tells(
                    e.pushed,
                    integration.pushed,
                    now,
                    limit,
                ) && tells(e.landed, integration.landed, now, limit))
                &&& (found.integration is None ==> e.clean is None && e.pushed is None && e.landed is None)
                &&& (e.provenance is Some <==> exists|s: int|
                    0 <= s < input.checkout_sources@.len() && (#[trigger] input.checkout_sources@[s]).name@ == found.name@
                        && input.checkout_sources@[s].resource_version@ == found.resource_version@)
            }
        }),
{
    let names = strs(input.expected_checkouts->Ok_0@);
    let name = names[i];
    let e = x.checkouts@[i];
    assert(names.len() == input.expected_checkouts->Ok_0@.len());
    assert(crate::explain::checkout_explained(
        e,
        name,
        input.selected_checkouts@,
        input.checkout_sources@,
        input.node_id@,
        now,
        crate::explain::limit_nanos(input.evidence_ttl),
    ));
    if e.observed {
        let found = input.selected_checkouts@[name];
        lemma_source(input.checkout_sources@, found.name@, found.resource_version@);
    }
}

proof fn lemma_request(sources: Seq<ChangeRequestSource>, name: Seq<char>)
    ensures
        chosen_request(sources, name) matches Some(c) ==> 0 <= c < sources.len() && sources[c].name@ == name && (sources[c].provenance is Local
            || forall|i: int| 0 <= i < sources.len() && (#[trigger] sources[i]).name@ == name ==> !(sources[i].provenance is Local)),
        chosen_request(sources, name) is None ==> forall|i: int| 0 <= i < sources.len() ==> (#[trigger] sources[i]).name@ != name,
    decreases sources.len(),
{
    if sources.len() > 0 {
        let front = sources.drop_last();
        lemma_request(front, name);
        assert(forall|i: int| 0 <= i < front.len() ==> #[trigger] sources[i] == front[i]);
        assert(sources[sources.len() - 1] == sources.last());
    }
}

/// Each change request that is expected is explained, and says whether the
/// convoy is bound to it. It is observed where some record of it is known, and
/// then as this host knows it, if it does.
pub proof fn law_expected_requests_are_explained(input: ExplainInput, now: Timestamp, x: ConvoyExplanation, name: Seq<char>)
    requires
        explained_convoy(input, now, Ok(x)),
        input.expected_change_requests matches Ok(expected) && exists|i: int|
            0 <= i < expected@.len() && (#[trigger] expected@[i])@ == name,
    ensures
        exists|k: int|
            0 <= k < x.change_requests@.len() && (#[trigger] x.change_requests@[k]).name@ == name && ({
                let e = x.change_requests@[k];
                let sources = input.change_request_sources@;
                &&& e.bound == (opt(input.bound_change_request->Ok_0) == Some(name))
                &&& e.observed <==> exists|s: int| 0 <= s < sources.len() && (#[trigger] sources[s]).name@ == name
                &&& !e.observed ==> e.fields is None && e.observed_at is None && e.freshness == EvidenceFreshness::Missing
                &&& e.observed ==> exists|s: int|
                    0 <= s < sources.len() && (#[trigger] sources[s]).name@ == name && e.fields == sources[s].fields && (
                    sources[s].provenance is Local || forall|t: int|
                        0 <= t < sources.len() && (#[trigger] sources[t]).name@ == name ==> !(sources[t].provenance is Local)) && aged(
                        match sources[s].observed_at {
                            Some(at) => Some((at.secs(), at.nanos())),
                            None => None,
                        },
                        now,
                        input.change_request_stale_after.secs * 1_000_000_000 + input.change_request_stale_after.subsec_nanos,
                        e.freshness,
                    )
            }),
{
    let expected = input.expected_change_requests->Ok_0@;
    let names = sorted_unique(strs(expected));
    lemma_sorted_unique_exists(strs(expected));
    let i = choose|i: int| 0 <= i < expected.len() && (#[trigger] expected[i])@ == name;
    assert(strs(expected)[i] == name);
    assert(holds(strs(expected), name));
    assert(holds(names, name));
    let k = choose|k: int| 0 <= k < names.len() && #[trigger] names[k] == name;
    let e = x.change_requests@[k];
    let sources = input.change_request_sources@;
    assert(crate::explain::request_explained(
        e,
        names[k],
        opt(input.bound_change_request->Ok_0),
        sources,
        input.node_id@,
        now,
        crate::explain::limit_nanos(input.change_request_stale_after),
    ));
    lemma_request(sources, name);
    if e.observed {
        let s = chosen_request(sources, name)->0;
        assert(sources[s].name@ == name && e.fields == sources[s].fields);
    }
}

/// A subscription waits for a convoy that it wakes or delivers a turn to.
pub open spec fn concerns(watcher: LeafWatcher, convoy: Seq<char>) -> bool {
    ||| watcher matches LeafWatcher::ReconcilerWake { convoy: c } && c@ == convoy
    ||| watcher matches LeafWatcher::TurnDelivery { convoy: c } && c@ == convoy
}

proof fn lemma_waiting_sound(subscriptions: Seq<LeafSubscription>, convoy: Seq<char>, k: int) -> (s: int)
    requires
        0 <= k < waiting_for(subscriptions, convoy).len(),
    ensures
        0 <= s < subscriptions.len(),
        subscriptions[s] == waiting_for(subscriptions, convoy)[k],
        concerns(subscriptions[s].watcher, convoy),
    decreases subscriptions.len(),
{
    let front = subscriptions.drop_last();
    let before = waiting_for(front, convoy);
    if k < before.len() {
        let s = lemma_waiting_sound(front, convoy, k);
        assert(front[s] == subscriptions[s]);
        s
    } else {
        subscriptions.len() - 1
    }
}

proof fn lemma_waiting_whole(subscriptions: Seq<LeafSubscription>, convoy: Seq<char>, s: int) -> (k: int)
    requires
        0 <= s < subscriptions.len(),
        concerns(subscriptions[s].watcher, convoy),
    ensures
        0 <= k < waiting_for(subscriptions, convoy).len(),
        waiting_for(subscriptions, convoy)[k] == subscriptions[s],
    decreases subscriptions.len(),
{
    let front = subscriptions.drop_last();
    let before = waiting_for(front, convoy);
    if s < front.len() {
        assert(front[s] == subscriptions[s]);
        lemma_waiting_whole(front, convoy, s)
    } else {
        before.len() as int
    }
}

/// Whether a subscription is explained as it is.
pub open spec fn is_subscription(e: ExplainedSubscription, s: LeafSubscription) -> bool {
    &&& e.id@ == s.id@
    &&& e.leaves@ == s.leaves@
    &&& s.watcher is ReconcilerWake ==> e.watcher@ == "reconciler_wake"@
    &&& s.watcher is TurnDelivery ==> e.watcher@ == "turn_delivery"@
    &&& e.last_leaf_firings@.len() == s.firings@.len()
    &&& forall|f: int|
        0 <= f < s.firings@.len() ==> (#[trigger] e.last_leaf_firings@[f]).leaf@ == s.firings@[f].leaf@ && e.last_leaf_firings@[f].value@
            == s.firings@[f].value@
}

/// The subscriptions that are listed are exactly those that wait for the
/// convoy.
pub proof fn law_subscriptions_are_of_the_convoy(
    list: Seq<ExplainedSubscription>,
    subscriptions: Seq<LeafSubscription>,
    convoy: Seq<char>,
    k: int,
    i: int,
)
    requires
        subscriptions_explained(list, subscriptions, convoy),
    ensures
        0 <= k < list.len() ==> exists|s: int|
            0 <= s < subscriptions.len() && concerns((#[trigger] subscriptions[s]).watcher, convoy) && is_subscription(
                list[k],
                subscriptions[s],
            ),
        0 <= i < subscriptions.len() && concerns(subscriptions[i].watcher, convoy) ==> exists|e: int|
            0 <= e < list.len() && is_subscription(#[trigger] list[e], subscriptions[i]),
{
    let waiting = waiting_for(subscriptions, convoy);
    if 0 <= k < list.len() {
        assert(crate::explain::subscription_explained(list[k], waiting[k]));
        let s = lemma_waiting_sound(subscriptions, convoy, k);
        assert(is_subscription(list[k], subscriptions[s]));
    }
    if 0 <= i < subscriptions.len() && concerns(subscriptions[i].watcher, convoy) {
        let e = lemma_waiting_whole(subscriptions, convoy, i);
        assert(crate::explain::subscription_explained(list[e], waiting[e]));
        assert(is_subscription(list[e], subscriptions[i]));
    }
}

proof fn lemma_sessions_sound(sessions: Seq<DeliverySession>, convoy: Seq<char>, k: int) -> (s: int)
    requires
        0 <= k < convoy_sessions(sessions, convoy).len(),
    ensures
        0 <= s < sessions.len(),
        sessions[s] == convoy_sessions(sessions, convoy)[k],
        opt(sessions[s].convoy) == Some(convoy),
    decreases sessions.len(),
{
    let front = sessions.drop_last();
    let before = convoy_sessions(front, convoy);
    if k < before.len() {
        let s = lemma_sessions_sound(front, convoy, k);
        assert(front[s] == sessions[s]);
        s
    } else {
        sessions.len() - 1
    }
}

proof fn lemma_sessions_whole(sessions: Seq<DeliverySession>, convoy: Seq<char>, s: int) -> (k: int)
    requires
        0 <= s < sessions.len(),
        opt(sessions[s].convoy) == Some(convoy),
    ensures
        0 <= k < convoy_sessions(sessions, convoy).len(),
        convoy_sessions(sessions, convoy)[k] == sessions[s],
    decreases sessions.len(),
{
    let front = sessions.drop_last();
    let before = convoy_sessions(front, convoy);
    if s < front.len() {
        assert(front[s] == sessions[s]);
        lemma_sessions_whole(front, convoy, s)
    } else {
        before.len() as int
    }
}

/// Whether a delivery is that of a session.
pub open spec fn is_delivery(e: ExplainedCrewDelivery, s: DeliverySession) -> bool {
    e.session@ == s.name@ && e.role@ == s.role@ && opt(e.delivered_message_id) == opt(s.delivered_message_id)
}

/// The deliveries that are shown are those to the sessions of the convoy.
pub proof fn law_deliveries_are_of_the_convoy(
    list: Seq<ExplainedCrewDelivery>,
    sessions: Seq<DeliverySession>,
    convoy: Seq<char>,
    k: int,
    i: int,
)
    requires
        deliveries_of(list, sessions, convoy),
    ensures
        rank_sort(list).len() == list.len(),
        0 <= k < list.len() ==> exists|s: int|
            0 <= s < sessions.len() && opt((#[trigger] sessions[s]).convoy) == Some(convoy) && is_delivery(
                rank_sort(list)[k],
                sessions[s],
            ),
        0 <= i < sessions.len() && opt(sessions[i].convoy) == Some(convoy) ==> exists|e: int|
            0 <= e < list.len() && is_delivery(#[trigger] list[e], sessions[i]),
{
    lemma_rank_sort(list);
    let mine = convoy_sessions(sessions, convoy);
    if 0 <= k < list.len() {
        lemma_rank_sort_keeps(list, k);
        let j = choose|j: int| 0 <= j < list.len() && list[j] == rank_sort(list)[k];
        let s = lemma_sessions_sound(sessions, convoy, j);
        assert(list[j].session@ == mine[j].name@);
        assert(is_delivery(rank_sort(list)[k], sessions[s]));
    }
    if 0 <= i < sessions.len() && opt(sessions[i].convoy) == Some(convoy) {
        let e = lemma_sessions_whole(sessions, convoy, i);
        assert(list[e].session@ == mine[e].name@);
        assert(is_delivery(list[e], sessions[i]));
    }
}

/// Work that was claimed to be over, done or handed back, has a ledger in the
/// explanation, which says where it is or that it is missing; other work has
/// none.
pub proof fn law_claimed_work_has_a_ledger(list: Seq<ExplainedDecisionLedger>, work: Seq<CrewWorkState>, i: int, k: int)
    requires
        ledgers_of(list, work),
    ensures
        list.len() <= work.len(),
        0 <= i < work.len() && (work[i].phase is Done || work[i].phase is HandedBack) ==> exists|l: int|
            0 <= l < list.len() && accounts_for(#[trigger] list[l], work[i]),
        0 <= k < list.len() ==> exists|w: int|
            0 <= w < work.len() && ((#[trigger] work[w]).phase is Done || work[w].phase is HandedBack) && accounts_for(
                list[k],
                work[w],
            ),
{
    broadcast use {
        vstd::seq::Seq::lemma_filter_pred,
        vstd::seq::Seq::lemma_filter_contains,
        vstd::seq::Seq::lemma_filter_len,
        vstd::seq::Seq::lemma_filter_contains_rev,
    };

    let wanted = claimed(work);
    if 0 <= i < work.len() && (work[i].phase is Done || work[i].phase is HandedBack) {
        assert(wanted.contains(work[i]));
        let l = choose|l: int| 0 <= l < wanted.len() && wanted[l] == work[i];
        assert(accounts_for(list[l], work[i]));
    }
    if 0 <= k < list.len() {
        assert(wanted.contains(wanted[k]));
        assert(work.contains(wanted[k]));
        let w = choose|w: int| 0 <= w < work.len() && work[w] == wanted[k];
        assert(work[w].phase is Done || work[w].phase is HandedBack);
        assert(accounts_for(list[k], work[w]));
    }
}

/// Whether a ledger is that of a piece of work.
pub open spec fn accounts_for(ledger: ExplainedDecisionLedger, work: CrewWorkState) -> bool {
    &&& ledger.vessel@ == work.vessel@
    &&& ledger.role@ == work.role@
    &&& opt(ledger.comment_url) == opt(work.decision_ledger_ref)
    &&& ledger.missing <==> work.decision_ledger_ref is None
    &&& ledger.claimed_at is Some <==> work.finished_at is Some
}

/// What is said of the settlement is what was evaluated: how it ends, whether
/// it is satisfied, and one by one what is unmet, each with a reason that
/// tells what is missing, false, unknown, stale or invalid.
pub proof fn law_settlements_are_told_as_evaluated(e: ExplainedSettlement, s: SettlementEvaluation, standing: Seq<char>)
    requires
        settlement_words(e, s, standing),
    ensures
        e.satisfied == s.satisfied,
        s.mode is NoExit ==> e.mode@ == standing,
        s.mode is ClaimExit ==> e.mode@ == "claim_exit"@,
        s.mode is WorldTerminal ==> e.mode@ == "world_terminal"@,
        e.unmet@.len() == s.unmet@.len(),
        forall|i: int|
            0 <= i < s.unmet@.len() ==> (#[trigger] e.unmet@[i]).reason@ == (match s.unmet@[i] {
                UnmetExpectation::InvalidExpectedCheckouts { .. } => "invalid_expected_checkouts"@,
                UnmetExpectation::ExitEntryAwaitingBinding { .. } => "missing_binding"@,
                UnmetExpectation::MissingCheckout { .. } | UnmetExpectation::MissingChangeRequest { .. } => "missing_record"@,
                UnmetExpectation::MissingCheckoutStatus { .. } => "missing_status"@,
                UnmetExpectation::CheckoutConditionFalse { .. }
                | UnmetExpectation::ChangeRequestConditionFalse { .. } => "false_condition"@,
                UnmetExpectation::CheckoutConditionUnknown { .. } => "unknown_condition"@,
                UnmetExpectation::StaleCheckoutEvidence { .. } | UnmetExpectation::StaleChangeRequest { .. } => "stale_evidence"@,
                UnmetExpectation::InvalidCondition { .. } => "invalid_condition"@,
            }),
{
    assert forall|i: int| 0 <= i < s.unmet@.len() implies (#[trigger] e.unmet@[i]).reason@ == crate::explain::unmet_words(s.unmet@[i]).0 by {
        assert((e.unmet@[i].reason@, e.unmet@[i].subject@, e.unmet@[i].detail@) == crate::explain::unmet_words(s.unmet@[i]));
    }
}

/// Of the records that answer to a name the one at home here is explained,
/// where there is one; and one of them in any case.
pub proof fn law_records_at_home_are_explained(sources: Seq<ConvoySourceRecord>, at: Seq<int>)
    ensures
        home_record(sources, at) is None <==> at.len() == 0,
        home_record(sources, at) matches Some(best) ==> at.contains(best) && (sources[best].local || forall|k: int|
            0 <= k < at.len() ==> !(sources[#[trigger] at[k]].local)),
    decreases at.len(),
{
    if at.len() > 0 {
        let front = at.drop_last();
        law_records_at_home_are_explained(sources, front);
        assert(at[at.len() - 1] == at.last());
        match home_record(sources, front) {
            Some(best) => {
                let k = choose|k: int| 0 <= k < front.len() && front[k] == best;
                assert(at[k] == best);
                assert(forall|k: int| 0 <= k < front.len() ==> #[trigger] at[k] == front[k]);
            },
            None => {},
        }
    }
}

/// A convoy is found by the record, role and project that it was listed with,
/// and is over when it landed, failed, was cancelled or given up.
pub proof fn law_convoys_are_found_as_they_were_listed(ids: Seq<ConvoyAddressIdentity<'_>>, sources: Seq<ConvoySourceRecord>, i: int)
    requires
        identities_match(ids, sources),
        0 <= i < sources.len(),
    ensures
        ids.len() == sources.len(),
        ids[i].record_name@ == sources[i].record_name@,
        ids[i].role is Some <==> sources[i].role is Some,
        ids[i].role matches Some(role) ==> role@ == sources[i].role->0@,
        ids[i].project is Some <==> sources[i].project is Some,
        ids[i].project matches Some(project) ==> project@ == sources[i].project->0@,
        ids[i].terminal <==> sources[i].phase == Some(ConvoyPhase::Landed) || sources[i].phase == Some(ConvoyPhase::Failed)
            || sources[i].phase == Some(ConvoyPhase::Cancelled) || sources[i].phase == Some(ConvoyPhase::Abandoned),
{
    assert(crate::explain::identity_matches(ids[i], sources[i]));
}

} // verus!
