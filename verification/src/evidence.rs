//! Evidence that a convoy's work has landed, and the teardown that it allows.
use vstd::prelude::*;

use crate::crew_work::first_failure;
use crate::model::{ConditionValue, ConvoyPhase};
use crate::ordered::{lex_sort, sort_strs};
use crate::text::{concat2, concat3, concat4, concat5, holds, join, join_strs, lemma_strs_push, opt, str_eq, strs, strs_hold};
use crate::time::{instant_in, parts, span, Timestamp};

verus! {

/// One fact about a checkout, and when it was seen.
#[derive(Debug, PartialEq, Eq)]
pub struct IntegrationCondition {
    pub value: ConditionValue,
    pub observed_at: Option<String>,
    pub details: Vec<String>,
}

/// What is known of a checkout's work.
#[derive(Debug, PartialEq, Eq)]
pub struct CheckoutIntegration {
    pub clean: IntegrationCondition,
    pub pushed: IntegrationCondition,
    pub landed: IntegrationCondition,
}

#[derive(Debug, Clone, Copy, PartialEq, Eq, Structural)]
pub enum EvidenceFreshness {
    Fresh,
    Stale,
    Missing,
}

/// Evidence of the past is fresh below the given age in nanoseconds and stale
/// from there on; evidence without a time, or of the future, is missing.
pub open spec fn freshness(observed: Option<(int, int)>, now: Timestamp, ttl: int) -> EvidenceFreshness {
    match observed {
        None => EvidenceFreshness::Missing,
        Some((secs, nanos)) => {
            let age = span(now.secs(), now.nanos(), secs, nanos);
            if age < 0 {
                EvidenceFreshness::Missing
            } else if age < ttl {
                EvidenceFreshness::Fresh
            } else {
                EvidenceFreshness::Stale
            }
        },
    }
}

pub fn observed_freshness(observed_at: &Option<Timestamp>, now: &Timestamp, ttl_nanos: i128) -> (r: EvidenceFreshness)
    ensures
        r == freshness(parts(*observed_at), *now, ttl_nanos as int),
{
    match observed_at {
        None => EvidenceFreshness::Missing,
        Some(at) => {
            let age: i128 = now.since(at);
            if age < 0 {
                EvidenceFreshness::Missing
            } else if age < ttl_nanos {
                EvidenceFreshness::Fresh
            } else {
                EvidenceFreshness::Stale
            }
        },
    }
}

/// When a condition was seen.
pub open spec fn seen_at(condition: IntegrationCondition) -> Option<(int, int)> {
    match condition.observed_at {
        Some(text) => instant_in(text@),
        None => None,
    }
}

fn condition_time(condition: &IntegrationCondition) -> (r: Option<Timestamp>)
    ensures
        parts(r) == seen_at(*condition),
{
    match &condition.observed_at {
        Some(text) => Timestamp::from_rfc3339(text.as_str()),
        None => None,
    }
}

pub open spec fn holds_true(condition: IntegrationCondition) -> bool {
    condition.value == ConditionValue::True
}

pub fn condition_is_true(condition: &IntegrationCondition) -> (r: bool)
    ensures
        r == holds_true(*condition),
{
    match condition.value {
        ConditionValue::True => true,
        _ => false,
    }
}

pub open spec fn is_fresh(condition: IntegrationCondition, now: Timestamp, ttl: int) -> bool {
    freshness(seen_at(condition), now, ttl) == EvidenceFreshness::Fresh
}

pub fn integration_condition_is_fresh(condition: &IntegrationCondition, now: &Timestamp, ttl_nanos: i128) -> (r: bool)
    ensures
        r == is_fresh(*condition, *now, ttl_nanos as int),
{
    match observed_freshness(&condition_time(condition), now, ttl_nanos) {
        EvidenceFreshness::Fresh => true,
        _ => false,
    }
}

/// The details in brackets, where there are any.
pub open spec fn detail_suffix(condition: IntegrationCondition) -> Seq<char> {
    if condition.details@.len() == 0 {
        Seq::empty()
    } else {
        " ("@ + join(strs(condition.details@), ", "@) + ")"@
    }
}

pub fn condition_detail_suffix(condition: &IntegrationCondition) -> (r: String)
    ensures
        r@ == detail_suffix(*condition),
{
    if condition.details.len() == 0 {
        String::new()
    } else {
        let list = join_strs(&condition.details, ", ");
        concat3(" (", list.as_str(), ")")
    }
}

/// What is wrong with a condition; nothing where it is true.
pub open spec fn problem(label: Seq<char>, condition: IntegrationCondition) -> Option<Seq<char>> {
    match condition.value {
        ConditionValue::True => None,
        ConditionValue::False => Some(label + "=False"@ + detail_suffix(condition)),
        ConditionValue::Unknown => Some(label + "=Unknown"@ + detail_suffix(condition)),
    }
}

pub fn condition_problem(label: &str, condition: &IntegrationCondition) -> (r: Option<String>)
    ensures
        opt(r) == problem(label@, *condition),
{
    match condition.value {
        ConditionValue::True => None,
        ConditionValue::False => {
            let suffix = condition_detail_suffix(condition);
            Some(concat3(label, "=False", suffix.as_str()))
        },
        ConditionValue::Unknown => {
            let suffix = condition_detail_suffix(condition);
            Some(concat3(label, "=Unknown", suffix.as_str()))
        },
    }
}

/// The texts that are there.
pub open spec fn present(list: Seq<Option<Seq<char>>>) -> Seq<Seq<char>>
    decreases list.len(),
{
    if list.len() == 0 {
        Seq::empty()
    } else {
        match list.last() {
            Some(s) => present(list.drop_last()).push(s),
            None => present(list.drop_last()),
        }
    }
}

/// Everything that is wrong with a checkout's work.
pub open spec fn problems(integration: CheckoutIntegration) -> Seq<Seq<char>> {
    present(
        seq![
            problem("Clean"@, integration.clean),
            problem("Pushed"@, integration.pushed),
            problem("Landed"@, integration.landed),
        ],
    )
}

/// One line on a checkout's work; nothing where all is well.
pub open spec fn summary(name: Seq<char>, path: Option<Seq<char>>, integration: CheckoutIntegration) -> Option<Seq<char>> {
    let found = problems(integration);
    if found.len() == 0 {
        None
    } else {
        Some(
            name + " ["@ + (match path {
                Some(path) => path,
                None => "<unknown path>"@,
            }) + "]: "@ + join(found, "; "@),
        )
    }
}

fn push_present(v: &mut Vec<String>, o: Option<String>, list: Ghost<Seq<Option<Seq<char>>>>)
    requires
        strs(old(v)@) == present(list@),
    ensures
        strs(final(v)@) == present(list@.push(opt(o))),
{
    assert(list@.push(opt(o)).drop_last() =~= list@);
    if let Some(s) = o {
        proof {
            lemma_strs_push(v@, s);
        }
        v.push(s);
    }
}

pub fn checkout_integration_summary(name: &str, path: &Option<String>, integration: &CheckoutIntegration) -> (r: Option<String>)
    ensures
        opt(r) == summary(name@, opt(*path), *integration),
{
    let mut found: Vec<String> = Vec::new();
    let ghost none: Seq<Option<Seq<char>>> = Seq::empty();
    assert(strs(found@) =~= present(none));
    let clean = condition_problem("Clean", &integration.clean);
    let pushed = condition_problem("Pushed", &integration.pushed);
    let landed = condition_problem("Landed", &integration.landed);
    let ghost a = opt(clean);
    let ghost b = opt(pushed);
    let ghost c = opt(landed);
    push_present(&mut found, clean, Ghost(none));
    push_present(&mut found, pushed, Ghost(none.push(a)));
    push_present(&mut found, landed, Ghost(none.push(a).push(b)));
    assert(none.push(a).push(b).push(c) =~= seq![a, b, c]);
    assert(strs(found@) == problems(*integration));
    assert(strs(found@).len() == found@.len());
    if found.len() == 0 {
        None
    } else {
        let list = join_strs(&found, "; ");
        let shown = match path {
            Some(path) => path.clone(),
            None => "<unknown path>".to_owned(),
        };
        Some(concat5(name, " [", shown.as_str(), "]: ", list.as_str()))
    }
}

/// A checkout that a convoy leaves behind.
#[derive(Debug, PartialEq, Eq)]
pub struct GateCheckout {
    pub name: String,
    pub path: Option<String>,
    pub deleting: bool,
    /// Whether the checkout was adopted, where its authority can be read.
    pub adopted: Result<bool, String>,
    pub integration: Option<CheckoutIntegration>,
}

/// The labels of the conditions that must be fresh and are not.
pub open spec fn stale_labels(adopted: bool, integration: CheckoutIntegration, now: Timestamp, ttl: int) -> Seq<Seq<char>> {
    let clean = if adopted || is_fresh(integration.clean, now, ttl) {
        None
    } else {
        Some("Clean"@)
    };
    let pushed = if adopted || is_fresh(integration.pushed, now, ttl) {
        None
    } else {
        Some("Pushed"@)
    };
    let landed = if is_fresh(integration.landed, now, ttl) {
        None
    } else {
        Some("Landed"@)
    };
    present(seq![clean, pushed, landed])
}

/// Why a checkout does not allow the teardown; nothing where it does. An
/// adopted checkout only has to have landed.
pub open spec fn refusal(checkout: GateCheckout, adopted: bool, now: Timestamp, ttl: int) -> Option<Seq<char>> {
    match checkout.integration {
        None => Some(checkout.name@ + ": integration evidence is missing"@),
        Some(integration) => {
            let stale = stale_labels(adopted, integration, now, ttl);
            if stale.len() > 0 {
                Some(checkout.name@ + ": "@ + join(stale, ", "@) + " evidence is missing or stale"@)
            } else if adopted {
                if holds_true(integration.landed) {
                    None
                } else {
                    match summary(checkout.name@, opt(checkout.path), integration) {
                        Some(s) => Some(s),
                        None => Some(checkout.name@ + ": Landed is not verified"@),
                    }
                }
            } else if holds_true(integration.clean) && holds_true(integration.pushed) && holds_true(
                integration.landed,
            ) {
                None
            } else {
                summary(checkout.name@, opt(checkout.path), integration)
            }
        },
    }
}

fn label_unless(fresh: bool, label: &str) -> (r: Option<String>)
    ensures
        opt(r) == (if fresh {
            None
        } else {
            Some(label@)
        }),
{
    if fresh {
        None
    } else {
        Some(label.to_owned())
    }
}

fn checkout_refusal(checkout: &GateCheckout, adopted: bool, now: &Timestamp, ttl_nanos: i128) -> (r: Option<String>)
    ensures
        opt(r) == refusal(*checkout, adopted, *now, ttl_nanos as int),
{
    let integration = match &checkout.integration {
        None => {
            return Some(concat2(checkout.name.as_str(), ": integration evidence is missing"));
        },
        Some(integration) => integration,
    };
    let clean = label_unless(adopted || integration_condition_is_fresh(&integration.clean, now, ttl_nanos), "Clean");
    let pushed = label_unless(
        adopted || integration_condition_is_fresh(&integration.pushed, now, ttl_nanos),
        "Pushed",
    );
    let landed = label_unless(integration_condition_is_fresh(&integration.landed, now, ttl_nanos), "Landed");
    let ghost none: Seq<Option<Seq<char>>> = Seq::empty();
    let ghost a = opt(clean);
    let ghost b = opt(pushed);
    let ghost c = opt(landed);
    let mut stale: Vec<String> = Vec::new();
    assert(strs(stale@) =~= present(none));
    push_present(&mut stale, clean, Ghost(none));
    push_present(&mut stale, pushed, Ghost(none.push(a)));
    push_present(&mut stale, landed, Ghost(none.push(a).push(b)));
    assert(none.push(a).push(b).push(c) =~= seq![a, b, c]);
    assert(strs(stale@) == stale_labels(adopted, *integration, *now, ttl_nanos as int));
    assert(strs(stale@).len() == stale@.len());
    if stale.len() > 0 {
        let list = join_strs(&stale, ", ");
        return Some(
            concat4(checkout.name.as_str(), ": ", list.as_str(), " evidence is missing or stale"),
        );
    }
    if adopted {
        if condition_is_true(&integration.landed) {
            return None;
        }
        return match checkout_integration_summary(checkout.name.as_str(), &checkout.path, integration) {
            Some(s) => Some(s),
            None => Some(concat2(checkout.name.as_str(), ": Landed is not verified")),
        };
    }
    if condition_is_true(&integration.clean) && condition_is_true(&integration.pushed) && condition_is_true(
        &integration.landed,
    ) {
        None
    } else {
        checkout_integration_summary(checkout.name.as_str(), &checkout.path, integration)
    }
}

/// The names of some checkouts.
pub open spec fn checkout_names(checkouts: Seq<GateCheckout>) -> Seq<Seq<char>> {
    checkouts.map_values(|c: GateCheckout| c.name@)
}

/// The expected checkouts that are not there.
pub open spec fn missing_from(expected: Seq<Seq<char>>, checkouts: Seq<GateCheckout>) -> Seq<Seq<char>>
    decreases expected.len(),
{
    if expected.len() == 0 {
        Seq::empty()
    } else {
        let before = missing_from(expected.drop_last(), checkouts);
        if holds(checkout_names(checkouts), expected.last()) {
            before
        } else {
            before.push(expected.last())
        }
    }
}

/// Whether a checkout has to be looked at: it is expected, and not already on
/// its way out with the convoy's sanction.
pub open spec fn considered(checkout: GateCheckout, expected: Seq<Seq<char>>, sanctioned: bool) -> bool {
    holds(expected, checkout.name@) && !(sanctioned && checkout.deleting)
}

/// The refusals of the checkouts looked at, or the first authority that cannot be read.
pub open spec fn refusals(
    checkouts: Seq<GateCheckout>,
    expected: Seq<Seq<char>>,
    sanctioned: bool,
    now: Timestamp,
    ttl: int,
) -> Result<Seq<Seq<char>>, Seq<char>>
    decreases checkouts.len(),
{
    if checkouts.len() == 0 {
        Ok(Seq::empty())
    } else {
        match refusals(checkouts.drop_last(), expected, sanctioned, now, ttl) {
            Err(e) => Err(e),
            Ok(before) => if !considered(checkouts.last(), expected, sanctioned) {
                Ok(before)
            } else {
                match checkouts.last().adopted {
                    Err(e) => Err(e@),
                    Ok(adopted) => match refusal(checkouts.last(), adopted, now, ttl) {
                        Some(s) => Ok(before.push(s)),
                        None => Ok(before),
                    },
                }
            },
        }
    }
}

/// What decides whether a convoy may be torn down.
pub struct TeardownCase {
    pub namespace: String,
    pub name: String,
    pub phase: Option<ConvoyPhase>,
    /// The checkouts the convoy should have left, where they can be told.
    pub expected: Result<Vec<String>, String>,
    /// Whether the convoy allows its checkouts to be reclaimed.
    pub reclaim_sanctioned: bool,
    pub checkouts: Vec<GateCheckout>,
}

/// Whether a convoy may be torn down. Force and abandonment override; a
/// missing checkout refuses unless its reclaim was sanctioned; every other
/// refusal is listed.
pub open spec fn gate(case: TeardownCase, force: bool, now: Timestamp, ttl: int) -> Result<(), Seq<char>> {
    let place = "convoy "@ + case.namespace@ + "/"@ + case.name@;
    if force || case.phase == Some(ConvoyPhase::Abandoned) {
        Ok(())
    } else {
        match case.expected {
            Err(e) => Err(e@),
            Ok(expected) => {
                let missing = missing_from(strs(expected@), case.checkouts@);
                if expected@.len() == 0 {
                    Ok(())
                } else if missing.len() > 0 && !case.reclaim_sanctioned {
                    Err(
                        place + " is not safe to delete: missing checkout integration evidence for "@ + join(
                            missing,
                            ", "@,
                        ),
                    )
                } else {
                    match refusals(case.checkouts@, strs(expected@), case.reclaim_sanctioned, now, ttl) {
                        Err(e) => Err(e),
                        Ok(list) => if list.len() == 0 {
                            Ok(())
                        } else {
                            Err(place + " is not safe to delete:\n"@ + join(lex_sort(list), "\n"@))
                        },
                    }
                }
            },
        }
    }
}

proof fn lemma_refusals_fail_early(
    checkouts: Seq<GateCheckout>,
    expected: Seq<Seq<char>>,
    sanctioned: bool,
    now: Timestamp,
    ttl: int,
    n: int,
)
    requires
        0 <= n <= checkouts.len(),
        refusals(checkouts.take(n), expected, sanctioned, now, ttl) is Err,
    ensures
        refusals(checkouts, expected, sanctioned, now, ttl) == refusals(
            checkouts.take(n),
            expected,
            sanctioned,
            now,
            ttl,
        ),
    decreases checkouts.len() - n,
{
    if n < checkouts.len() {
        assert(checkouts.take(n + 1).drop_last() =~= checkouts.take(n));
        lemma_refusals_fail_early(checkouts, expected, sanctioned, now, ttl, n + 1);
    } else {
        assert(checkouts.take(n) =~= checkouts);
    }
}

fn has_checkout(checkouts: &Vec<GateCheckout>, name: &str) -> (r: bool)
    ensures
        r == holds(checkout_names(checkouts@), name@),
{
    let mut i: usize = 0;
    while i < checkouts.len()
        invariant
            i <= checkouts@.len(),
            forall|k: int| 0 <= k < i ==> #[trigger] checkout_names(checkouts@)[k] != name@,
        decreases checkouts.len() - i,
    {
        if str_eq(checkouts[i].name.as_str(), name) {
            assert(checkout_names(checkouts@)[i as int] == name@);
            return true;
        }
        i = i + 1;
    }
    false
}

fn missing_checkouts(expected: &Vec<String>, checkouts: &Vec<GateCheckout>) -> (r: Vec<String>)
    ensures
        strs(r@) == missing_from(strs(expected@), checkouts@),
{
    let mut r: Vec<String> = Vec::new();
    let mut i: usize = 0;
    assert(strs(r@) =~= missing_from(strs(expected@).take(0), checkouts@));
    while i < expected.len()
        invariant
            i <= expected@.len(),
            strs(r@) == missing_from(strs(expected@).take(i as int), checkouts@),
        decreases expected.len() - i,
    {
        assert(strs(expected@).take(i + 1).drop_last() =~= strs(expected@).take(i as int));
        assert(strs(expected@).take(i + 1).last() == expected@[i as int]@);
        if !has_checkout(checkouts, expected[i].as_str()) {
            let name = expected[i].clone();
            proof {
                lemma_strs_push(r@, name);
            }
            r.push(name);
        }
        i = i + 1;
    }
    assert(strs(expected@).take(expected@.len() as int) =~= strs(expected@));
    r
}

pub fn verify_convoy_teardown_gate_for_checkouts(
    case: &TeardownCase,
    force: bool,
    now: &Timestamp,
    ttl_nanos: i128,
) -> (r: Result<(), String>)
    ensures
        match r {
            Ok(()) => gate(*case, force, *now, ttl_nanos as int) == Ok::<(), Seq<char>>(()),
            Err(e) => gate(*case, force, *now, ttl_nanos as int) == Err::<(), Seq<char>>(e@),
        },
{
    if force {
        return Ok(());
    }
    if let Some(ConvoyPhase::Abandoned) = case.phase {
        return Ok(());
    }
    let expected = match &case.expected {
        Err(e) => {
            return Err(e.clone());
        },
        Ok(expected) => expected,
    };
    if expected.len() == 0 {
        return Ok(());
    }
    let place = concat4("convoy ", case.namespace.as_str(), "/", case.name.as_str());
    let missing = missing_checkouts(expected, &case.checkouts);
    assert(strs(missing@).len() == missing@.len());
    if missing.len() > 0 && !case.reclaim_sanctioned {
        let list = join_strs(&missing, ", ");
        return Err(
            concat3(
                place.as_str(),
                " is not safe to delete: missing checkout integration evidence for ",
                list.as_str(),
            ),
        );
    }
    let mut found: Vec<String> = Vec::new();
    let mut i: usize = 0;
    let ghost wanted = strs(expected@);
    assert(strs(found@) =~= Seq::<Seq<char>>::empty());
    while i < case.checkouts.len()
        invariant
            i <= case.checkouts@.len(),
            !force,
            case.phase != Some(ConvoyPhase::Abandoned),
            case.expected == Ok::<Vec<String>, String>(*expected),
            expected@.len() > 0,
            missing_from(strs(expected@), case.checkouts@).len() == 0 || case.reclaim_sanctioned,
            wanted == strs(expected@),
            refusals(
                case.checkouts@.take(i as int),
                wanted,
                case.reclaim_sanctioned,
                *now,
                ttl_nanos as int,
            ) == Ok::<Seq<Seq<char>>, Seq<char>>(strs(found@)),
        decreases case.checkouts.len() - i,
    {
        let checkout = &case.checkouts[i];
        assert(case.checkouts@.take(i + 1).drop_last() =~= case.checkouts@.take(i as int));
        assert(case.checkouts@.take(i + 1).last() == *checkout);
        if strs_hold(expected, checkout.name.as_str()) && !(case.reclaim_sanctioned && checkout.deleting) {
            match &checkout.adopted {
                Err(e) => {
                    proof {
                        lemma_refusals_fail_early(
                            case.checkouts@,
                            wanted,
                            case.reclaim_sanctioned,
                            *now,
                            ttl_nanos as int,
                            i + 1,
                        );
                    }
                    return Err(e.clone());
                },
                Ok(adopted) => {
                    if let Some(line) = checkout_refusal(checkout, *adopted, now, ttl_nanos) {
                        proof {
                            lemma_strs_push(found@, line);
                        }
                        found.push(line);
                    }
                },
            }
        }
        i = i + 1;
    }
    assert(case.checkouts@.take(case.checkouts@.len() as int) =~= case.checkouts@);
    assert(strs(found@).len() == found@.len());
    if found.len() == 0 {
        Ok(())
    } else {
        let list = join_strs(&sort_strs(&found), "\n");
        Err(concat3(place.as_str(), " is not safe to delete:\n", list.as_str()))
    }
}

/// Outside of force and abandonment, a convoy is only torn down where every
/// expected checkout is there with fresh and true evidence, or its reclaim was
/// sanctioned and has begun.
pub proof fn law_teardown_needs_evidence(case: TeardownCase, now: Timestamp, ttl: int, i: int)
    requires
        gate(case, false, now, ttl) is Ok,
        case.phase != Some(ConvoyPhase::Abandoned),
        case.expected matches Ok(expected) && expected@.len() > 0 && 0 <= i < case.checkouts@.len() && considered(
            case.checkouts@[i],
            strs(expected@),
            case.reclaim_sanctioned,
        ),
    ensures
        case.checkouts@[i].adopted matches Ok(adopted) && refusal(case.checkouts@[i], adopted, now, ttl) is None,
        case.checkouts@[i].integration matches Some(integration) && holds_true(integration.landed) && is_fresh(
            integration.landed,
            now,
            ttl,
        ),
{
    let expected = case.expected->Ok_0;
    lemma_no_refusal(case.checkouts@, strs(expected@), case.reclaim_sanctioned, now, ttl, i);
    let c = case.checkouts@[i];
    let adopted = c.adopted->Ok_0;
    let integration = c.integration->0;
    lemma_present3(
        if adopted || is_fresh(integration.clean, now, ttl) {
            None
        } else {
            Some("Clean"@)
        },
        if adopted || is_fresh(integration.pushed, now, ttl) {
            None
        } else {
            Some("Pushed"@)
        },
        if is_fresh(integration.landed, now, ttl) {
            None
        } else {
            Some("Landed"@)
        },
    );
    lemma_present3(
        problem("Clean"@, integration.clean),
        problem("Pushed"@, integration.pushed),
        problem("Landed"@, integration.landed),
    );
}

proof fn lemma_present3(a: Option<Seq<char>>, b: Option<Seq<char>>, c: Option<Seq<char>>)
    ensures
        present(seq![a, b, c]).len() == (if a is Some {
            1int
        } else {
            0
        }) + (if b is Some {
            1int
        } else {
            0
        }) + (if c is Some {
            1int
        } else {
            0
        }),
{
    let none: Seq<Option<Seq<char>>> = Seq::empty();
    assert(seq![a, b, c].drop_last() =~= none.push(a).push(b));
    assert(none.push(a).push(b).drop_last() =~= none.push(a));
    assert(none.push(a).drop_last() =~= none);
    reveal_with_fuel(present, 4);
}

proof fn lemma_no_refusal(
    checkouts: Seq<GateCheckout>,
    expected: Seq<Seq<char>>,
    sanctioned: bool,
    now: Timestamp,
    ttl: int,
    i: int,
)
    requires
        0 <= i < checkouts.len(),
        refusals(checkouts, expected, sanctioned, now, ttl) matches Ok(list) && list.len() == 0,
        considered(checkouts[i], expected, sanctioned),
    ensures
        checkouts[i].adopted matches Ok(adopted) && refusal(checkouts[i], adopted, now, ttl) is None,
    decreases checkouts.len(),
{
    if i < checkouts.len() - 1 {
        assert(checkouts.drop_last()[i] == checkouts[i]);
        lemma_no_refusal(checkouts.drop_last(), expected, sanctioned, now, ttl, i);
    }
}

/// What is done next where a convoy is reaped.
#[derive(Debug, PartialEq, Eq)]
#[allow(inconsistent_fields)]
pub enum ReapStep {
    /// Ask whether it may be torn down.
    Verify { force: bool },
    /// Delete what belongs to it.
    Cascade,
    /// Delete it.
    Delete,
    Done,
    Refuse { message: String },
}

/// How the steps went that were taken so far.
#[derive(Debug, PartialEq, Eq)]
pub struct ReapReadings {
    pub verified: Option<Result<(), String>>,
    pub cascaded: Option<Result<(), String>>,
    pub deleted: Option<Result<(), String>>,
}

/// `step` is what is done next where a convoy is reaped: it goes last, and only
/// where it may be torn down.
pub open spec fn reaped_by(step: ReapStep, force: bool, rd: ReapReadings) -> bool {
    let refuses = |e: String| step matches ReapStep::Refuse { message } && message@ == e@;
    match rd.verified {
        None => step == (ReapStep::Verify { force }),
        Some(Err(e)) => refuses(e),
        Some(Ok(())) => match rd.cascaded {
            None => step is Cascade,
            Some(Err(e)) => refuses(e),
            Some(Ok(())) => match rd.deleted {
                None => step is Delete,
                Some(Err(e)) => refuses(e),
                Some(Ok(())) => step is Done,
            },
        },
    }
}

/// Decides what is done next where a convoy is reaped.
pub fn reap_convoy(force: bool, rd: &ReapReadings) -> (step: ReapStep)
    ensures
        reaped_by(step, force, *rd),
{
    match &rd.verified {
        None => {
            return ReapStep::Verify { force };
        },
        Some(Err(e)) => {
            return ReapStep::Refuse { message: e.clone() };
        },
        Some(Ok(())) => {},
    }
    match &rd.cascaded {
        None => {
            return ReapStep::Cascade;
        },
        Some(Err(e)) => {
            return ReapStep::Refuse { message: e.clone() };
        },
        Some(Ok(())) => {},
    }
    match &rd.deleted {
        None => ReapStep::Delete,
        Some(Err(e)) => ReapStep::Refuse { message: e.clone() },
        Some(Ok(())) => ReapStep::Done,
    }
}

/// A convoy goes only once it may be torn down and nothing of it is left.
pub proof fn law_convoys_go_last(step: ReapStep, force: bool, rd: ReapReadings)
    requires
        reaped_by(step, force, rd),
        step is Delete,
    ensures
        rd.verified matches Some(Ok(_)),
        rd.cascaded matches Some(Ok(_)),
{
}

/// What belongs to a convoy.
#[derive(Debug, Clone, Copy, PartialEq, Eq, Structural)]
pub enum ChildKind {
    Presentation,
    Vessel,
    TerminalSession,
    Checkout,
    /// The demands that its work raised.
    Demand,
}

/// What belongs to a convoy, in the order in which it goes.
pub open spec fn child_kinds() -> Seq<ChildKind> {
    seq![
        ChildKind::Presentation,
        ChildKind::Vessel,
        ChildKind::TerminalSession,
        ChildKind::Checkout,
        ChildKind::Demand,
    ]
}

/// Which children of a convoy are deleted next. `outcomes` is what came of
/// deleting those before.
pub fn next_children(outcomes: &Vec<Result<(), String>>) -> (r: Result<Option<ChildKind>, String>)
    ensures
        match r {
            Err(e) => first_failure(outcomes@) < outcomes@.len() && outcomes@[first_failure(outcomes@)] == Err::<(), String>(e),
            Ok(Some(kind)) => first_failure(outcomes@) == outcomes@.len() < child_kinds().len() && kind
                == child_kinds()[outcomes@.len() as int],
            Ok(None) => first_failure(outcomes@) == outcomes@.len() >= child_kinds().len(),
        },
{
    let mut i: usize = 0;
    assert(outcomes@.skip(0) =~= outcomes@);
    while i < outcomes.len()
        invariant
            i <= outcomes@.len(),
            first_failure(outcomes@) == i + first_failure(outcomes@.skip(i as int)),
        decreases outcomes.len() - i,
    {
        assert(outcomes@.skip(i as int)[0] == outcomes@[i as int]);
        assert(outcomes@.skip(i as int).drop_first() =~= outcomes@.skip(i + 1));
        match &outcomes[i] {
            Err(e) => {
                return Err(e.clone());
            },
            Ok(()) => {},
        }
        i = i + 1;
    }
    Ok(
        match outcomes.len() {
            0 => Some(ChildKind::Presentation),
            1 => Some(ChildKind::Vessel),
            2 => Some(ChildKind::TerminalSession),
            3 => Some(ChildKind::Checkout),
            4 => Some(ChildKind::Demand),
            _ => None,
        },
    )
}

} // verus!
