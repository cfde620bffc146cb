use flotilla_core::evidence::{
    checkout_integration_summary, condition_detail_suffix, condition_is_true, condition_problem, integration_condition_is_fresh,
    next_children, observed_freshness, reap_convoy, verify_convoy_teardown_gate_for_checkouts, CheckoutIntegration, ChildKind, EvidenceFreshness, GateCheckout,
    IntegrationCondition, ReapReadings, ReapStep, TeardownCase,
};
use flotilla_core::model::{ConditionValue, ConvoyPhase};
use flotilla_core::time::Timestamp;

const MINUTE: i128 = 60_000_000_000;

fn noon() -> Timestamp {
    Timestamp::at(1786795200, 0).expect("an instant")
}

fn condition(value: ConditionValue, observed_at: &str, details: &[&str]) -> IntegrationCondition {
    IntegrationCondition {
        value,
        observed_at: Some(observed_at.to_string()),
        details: details.iter().map(|detail| detail.to_string()).collect(),
    }
}

fn good() -> IntegrationCondition {
    condition(ConditionValue::True, "2026-08-15T11:59:30Z", &[])
}

fn checkout(name: &str, adopted: bool, integration: Option<CheckoutIntegration>) -> GateCheckout {
    GateCheckout { name: name.to_string(), path: Some("/work/app".to_string()), deleting: false, adopted: Ok(adopted), integration }
}

fn case(expected: &[&str], checkouts: Vec<GateCheckout>) -> TeardownCase {
    TeardownCase {
        namespace: "flotilla".to_string(),
        name: "convoy-1".to_string(),
        phase: Some(ConvoyPhase::Landed),
        expected: Ok(expected.iter().map(|name| name.to_string()).collect()),
        reclaim_sanctioned: false,
        checkouts,
    }
}

#[test]
fn evidence_is_fresh_until_its_time_is_up() {
    let earlier = |secs: i64| Timestamp::at(1786795200 - secs, 0);
    assert_eq!(observed_freshness(&None, &noon(), MINUTE), EvidenceFreshness::Missing);
    assert_eq!(observed_freshness(&earlier(59), &noon(), MINUTE), EvidenceFreshness::Fresh);
    assert_eq!(observed_freshness(&earlier(60), &noon(), MINUTE), EvidenceFreshness::Stale);
    assert_eq!(observed_freshness(&earlier(-1), &noon(), MINUTE), EvidenceFreshness::Missing);
    assert!(integration_condition_is_fresh(&good(), &noon(), MINUTE));
    assert!(!integration_condition_is_fresh(&condition(ConditionValue::True, "today", &[]), &noon(), MINUTE));
}

#[test]
fn a_convoy_goes_after_what_belongs_to_it() {
    let refuse = |message: &str| ReapStep::Refuse { message: message.to_string() };
    let mut rd = ReapReadings { verified: None, cascaded: None, deleted: None };
    assert_eq!(reap_convoy(false, &rd), ReapStep::Verify { force: false });
    rd.verified = Some(Err("unlanded work".to_string()));
    assert_eq!(reap_convoy(false, &rd), refuse("unlanded work"));
    rd.verified = Some(Ok(()));
    assert_eq!(reap_convoy(false, &rd), ReapStep::Cascade);
    rd.cascaded = Some(Err("down".to_string()));
    assert_eq!(reap_convoy(false, &rd), refuse("down"));
    rd.cascaded = Some(Ok(()));
    assert_eq!(reap_convoy(false, &rd), ReapStep::Delete);
    rd.deleted = Some(Ok(()));
    assert_eq!(reap_convoy(true, &rd), ReapStep::Done);
}

#[test]
fn the_children_of_a_convoy_go_in_order() {
    let mut outcomes = vec![];
    let mut gone = vec![];
    while let Some(kind) = next_children(&outcomes).expect("children") {
        gone.push(kind);
        outcomes.push(Ok(()));
    }
    assert_eq!(
        gone,
        vec![ChildKind::Presentation, ChildKind::Vessel, ChildKind::TerminalSession, ChildKind::Checkout, ChildKind::Demand]
    );
    assert_eq!(next_children(&vec![Ok(()), Err("down".to_string())]), Err("down".to_string()));
}

#[test]
fn conditions_say_what_is_wrong() {
    assert!(condition_is_true(&good()));
    assert_eq!(condition_problem("Clean", &good()), None);
    let dirty = condition(ConditionValue::False, "2026-08-15T11:59:30Z", &["a.rs", "b.rs"]);
    assert!(!condition_is_true(&dirty));
    assert_eq!(condition_detail_suffix(&dirty), " (a.rs, b.rs)");
    assert_eq!(condition_problem("Clean", &dirty), Some("Clean=False (a.rs, b.rs)".to_string()));
    let unknown = condition(ConditionValue::Unknown, "2026-08-15T11:59:30Z", &[]);
    assert_eq!(condition_problem("Pushed", &unknown), Some("Pushed=Unknown".to_string()));
    let integration = CheckoutIntegration { clean: dirty, pushed: unknown, landed: good() };
    assert_eq!(
        checkout_integration_summary("app", &None, &integration),
        Some("app [<unknown path>]: Clean=False (a.rs, b.rs); Pushed=Unknown".to_string())
    );
    let fine = CheckoutIntegration { clean: good(), pushed: good(), landed: good() };
    assert_eq!(checkout_integration_summary("app", &None, &fine), None);
}

#[test]
fn a_convoy_with_good_evidence_may_go() {
    let fine = CheckoutIntegration { clean: good(), pushed: good(), landed: good() };
    let case = case(&["app"], vec![checkout("app", false, Some(fine))]);
    assert_eq!(verify_convoy_teardown_gate_for_checkouts(&case, false, &noon(), MINUTE), Ok(()));
}

#[test]
fn missing_evidence_keeps_a_convoy() {
    assert_eq!(
        verify_convoy_teardown_gate_for_checkouts(&case(&["app", "lib"], vec![]), false, &noon(), MINUTE),
        Err("convoy flotilla/convoy-1 is not safe to delete: missing checkout integration evidence for app, lib".to_string())
    );
    assert_eq!(
        verify_convoy_teardown_gate_for_checkouts(&case(&["app"], vec![checkout("app", false, None)]), false, &noon(), MINUTE),
        Err("convoy flotilla/convoy-1 is not safe to delete:\napp: integration evidence is missing".to_string())
    );
}

#[test]
fn stale_or_bad_evidence_keeps_a_convoy() {
    let old = condition(ConditionValue::True, "2026-08-15T11:50:00Z", &[]);
    let stale = CheckoutIntegration { clean: old, pushed: good(), landed: good() };
    assert_eq!(
        verify_convoy_teardown_gate_for_checkouts(&case(&["app"], vec![checkout("app", false, Some(stale))]), false, &noon(), MINUTE),
        Err("convoy flotilla/convoy-1 is not safe to delete:\napp: Clean evidence is missing or stale".to_string())
    );
    let unlanded = CheckoutIntegration {
        clean: good(),
        pushed: good(),
        landed: condition(ConditionValue::False, "2026-08-15T11:59:30Z", &["abc"]),
    };
    assert_eq!(
        verify_convoy_teardown_gate_for_checkouts(&case(&["app"], vec![checkout("app", false, Some(unlanded))]), false, &noon(), MINUTE),
        Err("convoy flotilla/convoy-1 is not safe to delete:\napp [/work/app]: Landed=False (abc)".to_string())
    );
}

#[test]
fn an_adopted_checkout_only_has_to_have_landed() {
    let dirty = condition(ConditionValue::False, "2026-08-15T11:00:00Z", &[]);
    let integration = CheckoutIntegration { clean: dirty, pushed: good(), landed: good() };
    let case = case(&["app"], vec![checkout("app", true, Some(integration))]);
    assert_eq!(verify_convoy_teardown_gate_for_checkouts(&case, false, &noon(), MINUTE), Ok(()));
}

#[test]
fn force_and_abandonment_need_no_evidence() {
    assert_eq!(verify_convoy_teardown_gate_for_checkouts(&case(&["app"], vec![]), true, &noon(), MINUTE), Ok(()));
    let mut abandoned = case(&["app"], vec![]);
    abandoned.phase = Some(ConvoyPhase::Abandoned);
    assert_eq!(verify_convoy_teardown_gate_for_checkouts(&abandoned, false, &noon(), MINUTE), Ok(()));
    assert_eq!(verify_convoy_teardown_gate_for_checkouts(&case(&[], vec![]), false, &noon(), MINUTE), Ok(()));
}

#[test]
fn a_teardown_fails_where_its_inputs_cannot_be_read() {
    let mut unknown = case(&[], vec![]);
    unknown.expected = Err("derive expected checkouts: no workflow".to_string());
    assert_eq!(
        verify_convoy_teardown_gate_for_checkouts(&unknown, false, &noon(), MINUTE),
        Err("derive expected checkouts: no workflow".to_string())
    );
    let mut unread = checkout("app", false, None);
    unread.adopted = Err("bad authority".to_string());
    assert_eq!(
        verify_convoy_teardown_gate_for_checkouts(&case(&["app"], vec![unread]), false, &noon(), MINUTE),
        Err("bad authority".to_string())
    );
}
