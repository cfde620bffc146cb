use flotilla_core::evidence::{CheckoutIntegration, EvidenceFreshness, IntegrationCondition};
use flotilla_core::explain::{
    explain_condition, explain_convoy, explain_deliveries, explain_select, explain_settlement, explain_subscriptions,
    explain_unmet_expectation, explained_decision_ledgers, explained_provenance, phase_text, AgeLimit, ChangeRequestSource, CheckoutSource,
    ConvoySourceRecord, CrewWorkState, DeliverySession, ExplainInput, ExplainedDecisionLedger, LeafFiring, LeafSubscription, LeafWatcher,
    SelectedCheckout, SettlementEvaluation, SettlementMode, UnmetExpectation,
};
use flotilla_core::model::{ConditionValue, ConvoyPhase, CrewWorkPhase, Provenance};
use flotilla_core::ordered::OrderedMap;
use flotilla_core::resources::RecordProvenance;
use flotilla_core::time::Timestamp;

fn text(value: &str) -> Option<String> {
    Some(value.to_string())
}

fn noon() -> Timestamp {
    Timestamp::at(1786795200, 0).expect("an instant")
}

fn work(role: &str, phase: CrewWorkPhase, ledger: Option<&str>) -> CrewWorkState {
    CrewWorkState {
        vessel: "work".to_string(),
        role: role.to_string(),
        phase,
        finished_at: Timestamp::from_rfc3339("2026-08-21T12:00:00Z"),
        decision_ledger_ref: ledger.map(str::to_string),
    }
}

fn record(name: &str, role: Option<&str>, project: Option<&str>, phase: Option<ConvoyPhase>, local: bool) -> ConvoySourceRecord {
    ConvoySourceRecord {
        record_name: name.to_string(),
        role: role.map(str::to_string),
        project: project.map(str::to_string),
        phase,
        local,
    }
}

#[test]
fn completed_claims_without_a_decision_ledger_are_flagged_not_hidden() {
    let ledgers = explained_decision_ledgers(&vec![
        work("coder", CrewWorkPhase::Done, None),
        work("inspector", CrewWorkPhase::Done, Some("https://example.test/pull/1#comment-2")),
    ]);
    assert_eq!(ledgers.len(), 2);
    assert!(ledgers.iter().any(|ledger| ledger.role == "coder" && ledger.missing && ledger.comment_url.is_none()));
    assert!(ledgers.iter().any(|ledger| {
        ledger.role == "inspector" && !ledger.missing && ledger.comment_url.as_deref() == Some("https://example.test/pull/1#comment-2")
    }));
}

#[test]
fn only_claims_have_a_decision_ledger() {
    let ledgers = explained_decision_ledgers(&vec![
        work("coder", CrewWorkPhase::Working, None),
        work("pilot", CrewWorkPhase::HandedBack, None),
        work("scout", CrewWorkPhase::Failed, None),
    ]);
    assert_eq!(
        ledgers,
        vec![ExplainedDecisionLedger {
            vessel: "work".to_string(),
            role: "pilot".to_string(),
            claimed_at: text("2026-08-21T12:00:00+00:00"),
            comment_url: None,
            missing: true,
        }]
    );
}

#[test]
fn convoy_explain_refuses_multiple_terminal_generations() {
    let sources = vec![
        record("convoy-one", Some("inspector"), Some("flotilla"), Some(ConvoyPhase::Landed), true),
        record("convoy-two", Some("inspector"), Some("flotilla"), Some(ConvoyPhase::Landed), true),
    ];
    assert_eq!(
        explain_select(&sources, "inspector@flotilla"),
        Err("convoy address `inspector@flotilla` matches multiple terminal records; use an exact record name: convoy-one, convoy-two"
            .to_string())
    );
}

#[test]
fn convoy_explain_rejects_projectless_and_project_bound_role_ambiguity() {
    let sources =
        vec![record("convoy-one", Some("inspector"), None, None, true), record("convoy-two", Some("inspector"), Some("beta"), None, true)];
    assert_eq!(
        explain_select(&sources, "inspector"),
        Err("convoy role `inspector` is ambiguous; use one of: inspector@, inspector@beta".to_string())
    );
}

#[test]
fn convoy_explain_addresses_an_exact_terminal_pre_identity_record() {
    let sources = vec![record("pre-identity-record", None, None, Some(ConvoyPhase::Failed), true)];
    assert_eq!(explain_select(&sources, "pre-identity-record"), Ok(0));
    assert_eq!(phase_text(ConvoyPhase::Failed), "Failed");
}

#[test]
fn the_local_record_is_explained_before_a_replica() {
    let sources = vec![
        record("convoy-one", Some("governor"), Some("fleet"), None, true),
        record("convoy-one", Some("governor"), Some("fleet"), None, false),
    ];
    assert_eq!(explain_select(&sources, "convoy-one"), Ok(0));
}

#[test]
fn provenance_says_where_a_record_is_from() {
    assert_eq!(explained_provenance(&Provenance::Local, "node-1"), RecordProvenance::Local { node_id: "node-1".to_string() });
    assert_eq!(
        explained_provenance(&Provenance::Replica { origin_root: "root".to_string(), last_synced_at: noon() }, "node-1"),
        RecordProvenance::Replica { origin_root: "root".to_string(), last_synced_at: "2026-08-15T12:00:00+00:00".to_string() }
    );
}

#[test]
fn unmet_expectations_are_put_in_words() {
    let words = |x: UnmetExpectation| {
        let e = explain_unmet_expectation(&x);
        (e.reason, e.subject, e.detail)
    };
    let triple = |a: &str, b: &str, c: &str| (a.to_string(), b.to_string(), c.to_string());
    assert_eq!(
        words(UnmetExpectation::MissingCheckout { checkout: "app".to_string() }),
        triple("missing_record", "checkout/app", "expected checkout has no federated record")
    );
    assert_eq!(
        words(UnmetExpectation::StaleCheckoutEvidence { checkout: "app".to_string(), condition: "clean".to_string(), observed_at: None }),
        triple("stale_evidence", "checkout/app.clean", "evidence has no observation time")
    );
    assert_eq!(
        words(UnmetExpectation::ChangeRequestConditionFalse { record: "cr-1".to_string(), value: text("open") }),
        triple("false_condition", "change_request/cr-1.state", "state is open")
    );
    assert_eq!(
        words(UnmetExpectation::ExitEntryAwaitingBinding { disposition: "merge".to_string(), subject: "app".to_string() }),
        triple("missing_binding", "exit/merge", "entry awaits a bound change request for app")
    );
    assert_eq!(
        words(UnmetExpectation::InvalidExpectedCheckouts { message: "bad".to_string() }),
        triple("invalid_expected_checkouts", "convoy", "bad")
    );
}

#[test]
fn a_settlement_names_its_mode() {
    let settled = |mode: SettlementMode| SettlementEvaluation { mode, satisfied: true, unmet: vec![] };
    assert_eq!(explain_settlement(&settled(SettlementMode::NoExit), "standing").mode, "standing");
    assert_eq!(explain_settlement(&settled(SettlementMode::ClaimExit), "standing").mode, "claim_exit");
    assert_eq!(explain_settlement(&settled(SettlementMode::WorldTerminal), "standing").mode, "world_terminal");
}

#[test]
fn subscriptions_and_deliveries_are_those_of_the_convoy() {
    let subscription = |id: &str, watcher: LeafWatcher| LeafSubscription {
        id: id.to_string(),
        watcher,
        leaves: vec!["leaf".to_string()],
        firings: vec![LeafFiring { leaf: "leaf".to_string(), value: "true".to_string(), fired_at: noon() }],
    };
    let explained = explain_subscriptions(
        &vec![
            subscription("1", LeafWatcher::WaitCaller),
            subscription("2", LeafWatcher::ReconcilerWake { convoy: "one".to_string() }),
            subscription("3", LeafWatcher::TurnDelivery { convoy: "two".to_string() }),
        ],
        "one",
    );
    assert_eq!(explained.len(), 1);
    assert_eq!(explained[0].id, "2");
    assert_eq!(explained[0].last_leaf_firings[0].fired_at, "2026-08-15T12:00:00+00:00");
    let session = |name: &str, convoy: &str| DeliverySession {
        name: name.to_string(),
        convoy: text(convoy),
        role: "coder".to_string(),
        delivered_message_id: text("m-1"),
    };
    let deliveries = explain_deliveries(&vec![session("s-1", "one"), session("s-2", "two")], "one");
    assert_eq!(deliveries.len(), 1);
    assert_eq!(deliveries[0].session, "s-1");
    assert_eq!(deliveries[0].delivered_message_id, text("m-1"));
}

fn input() -> ExplainInput {
    let good = || IntegrationCondition {
        value: ConditionValue::True,
        observed_at: text("2026-08-15T11:59:30Z"),
        details: vec!["abc".to_string()],
    };
    let mut selected = OrderedMap::new();
    selected.insert(
        "app".to_string(),
        SelectedCheckout {
            name: "app".to_string(),
            resource_version: "7".to_string(),
            integration: Some(CheckoutIntegration { clean: good(), pushed: good(), landed: good() }),
        },
    );
    ExplainInput {
        namespace: "flotilla".to_string(),
        name: "convoy-1".to_string(),
        node_id: "node-1".to_string(),
        phase: Some(ConvoyPhase::Active),
        crew_work: vec![work("coder", CrewWorkPhase::Done, None)],
        expected_checkouts: Ok(vec!["app".to_string(), "lib".to_string()]),
        selected_checkouts: selected,
        checkout_sources: vec![CheckoutSource {
            name: "app".to_string(),
            resource_version: "7".to_string(),
            provenance: Provenance::Local,
        }],
        expected_change_requests: Ok(vec!["cr-1".to_string()]),
        bound_change_request: Ok(text("cr-1")),
        change_request_sources: vec![ChangeRequestSource {
            name: "cr-1".to_string(),
            provenance: Provenance::Replica { origin_root: "root".to_string(), last_synced_at: noon() },
            fields: text("{}"),
            observed_at: Timestamp::at(1786795200 - 700, 0),
        }],
        settlement: SettlementEvaluation { mode: SettlementMode::NoExit, satisfied: false, unmet: vec![] },
        standing_mode: "standing".to_string(),
        subscriptions: vec![],
        sessions: vec![],
        evidence_ttl: AgeLimit { secs: 60, subsec_nanos: 0 },
        change_request_stale_after: AgeLimit { secs: 600, subsec_nanos: 0 },
    }
}

#[test]
fn an_explanation_gathers_all_evidence() {
    let explanation = explain_convoy(&input(), &noon()).expect("an explanation");
    assert_eq!(explanation.convoy, "convoy-1");
    assert_eq!(explanation.phase, "Active");
    assert_eq!(explanation.evidence_ttl_seconds, 60);
    assert_eq!(explanation.checkouts.len(), 2);
    assert!(explanation.checkouts[0].observed);
    assert_eq!(explanation.checkouts[0].provenance, Some(RecordProvenance::Local { node_id: "node-1".to_string() }));
    assert_eq!(explanation.checkouts[0].clean.as_ref().map(|c| c.freshness), Some(EvidenceFreshness::Fresh));
    assert!(!explanation.checkouts[1].observed);
    assert!(explanation.change_requests[0].bound);
    assert_eq!(explanation.change_requests[0].freshness, EvidenceFreshness::Stale);
    assert_eq!(explanation.decision_ledgers.len(), 1);
    assert_eq!(explanation.settlement.mode, "standing");
}

#[test]
fn a_limit_counts_to_the_nanosecond() {
    let mut split = input();
    split.change_request_stale_after = AgeLimit { secs: 90, subsec_nanos: 500_000_000 };
    split.change_request_sources[0].observed_at = Timestamp::at(1786795200 - 91, 800_000_000);
    let explanation = explain_convoy(&split, &noon()).expect("an explanation");
    assert_eq!(explanation.change_requests[0].freshness, EvidenceFreshness::Fresh);
    assert_eq!(explanation.change_request_stale_after_seconds, 90);
    split.change_request_sources[0].observed_at = Timestamp::at(1786795200 - 91, 500_000_000);
    let explanation = explain_convoy(&split, &noon()).expect("an explanation");
    assert_eq!(explanation.change_requests[0].freshness, EvidenceFreshness::Stale);
}

#[test]
fn an_explanation_fails_where_expectations_cannot_be_derived() {
    let mut unread = input();
    unread.expected_checkouts = Err("no workflow".to_string());
    assert_eq!(explain_convoy(&unread, &noon()), Err("derive expected checkouts: no workflow".to_string()));
    let mut unbound = input();
    unbound.bound_change_request = Err("no binding".to_string());
    assert_eq!(explain_convoy(&unbound, &noon()), Err("derive bound change request: no binding".to_string()));
    let mut unexpected = input();
    unexpected.expected_change_requests = Err("no exit".to_string());
    assert_eq!(explain_convoy(&unexpected, &noon()), Err("derive expected change requests: no exit".to_string()));
}

#[test]
fn a_condition_is_explained_with_its_age() {
    let condition = IntegrationCondition { value: ConditionValue::Unknown, observed_at: None, details: vec![] };
    let explained = explain_condition(&condition, &noon(), 60_000_000_000);
    assert_eq!(explained.value, "unknown");
    assert_eq!(explained.freshness, EvidenceFreshness::Missing);
}
