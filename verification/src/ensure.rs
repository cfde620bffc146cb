//! Standing convoys: keeping one running for each ensure, within a budget of
//! restarts, and never over a backing that may still be alive.
use vstd::prelude::*;

use crate::address::address_text;
use crate::digest::{bytes_digest, hex, sha256};
use crate::materialize::{put, AnnotationNames};
use crate::model::{terminal_phase, ConvoyPhase};
use crate::ordered::{text_map, OrderedMap};
use crate::sorting::{rank_sort, sort_ranked, Ranked};
use crate::text::{concat2, concat3, concat4, concat5, concat6, decimal, decimal_str, join, join_strs, opt, opt_is, str_eq, strs};
use crate::time::{display_text, earlier, elapsed, fraction_after, parts, Timestamp, LAST_SECOND};

verus! {

/// How many generations may fail in a row.
pub const ENSURE_MAX_CONSECUTIVE_FAILURES: u32 = 3;

/// After how long a demand for attention escalates.
pub const ENSURE_ESCALATION_SECS: u32 = 900;

/// The longest a restart is put off.
pub const ENSURE_MAX_RETRY_SECS: u32 = 900;

/// How long a convoy must have run for its failures to be forgotten.
pub const ENSURE_BACKOFF_RESET_SECS: i64 = 600;

/// Twice as long for each restart, from half a minute to a quarter of an hour.
pub open spec fn retry_delay(restarts: int) -> int {
    if restarts <= 0 {
        30
    } else if restarts == 1 {
        60
    } else if restarts == 2 {
        120
    } else if restarts == 3 {
        240
    } else if restarts == 4 {
        480
    } else {
        900
    }
}

pub fn ensure_retry_delay(restart_count: u32) -> (r: u32)
    ensures
        r == retry_delay(restart_count as int),
        r <= ENSURE_MAX_RETRY_SECS,
{
    if restart_count == 0 {
        30
    } else if restart_count == 1 {
        60
    } else if restart_count == 2 {
        120
    } else if restart_count == 3 {
        240
    } else if restart_count == 4 {
        480
    } else {
        900
    }
}

/// A restart is never put off less for having happened more often.
pub proof fn law_delays_grow(a: int, b: int)
    requires
        a <= b,
    ensures
        retry_delay(a) <= retry_delay(b),
{
}

/// The digest of an ensure's configuration.
pub fn ensure_config_hash(encoded: &Vec<u8>) -> (r: String)
    ensures
        r@ == hex(sha256(encoded@)),
{
    bytes_digest(encoded)
}

/// What is recorded of an ensure.
#[derive(Debug, PartialEq, Eq)]
pub struct EnsureStatus {
    pub observed_config_hash: Option<String>,
    pub convoy_ref: Option<String>,
    pub restart_count: u32,
    pub retry_at: Option<Timestamp>,
    pub last_failure: Option<String>,
    pub running_since: Option<Timestamp>,
    /// Whether it is held because it was restarted too often.
    pub restart_limit_hold: bool,
}

/// Whether a configuration was recorded, and whether it is another than before.
#[derive(Debug, Clone, Copy, PartialEq, Eq, Structural)]
pub enum ConfigStep {
    Same,
    Observe { changed: bool },
}

/// Whether the configuration is to be recorded.
pub open spec fn config_step(status: EnsureStatus, hash: Seq<char>) -> ConfigStep {
    if opt(status.observed_config_hash) == Some(hash) {
        ConfigStep::Same
    } else {
        ConfigStep::Observe { changed: status.observed_config_hash is Some }
    }
}

/// `after` is what is known once the configuration was looked at: another one
/// starts with a clean slate.
pub open spec fn config_observed(after: EnsureStatus, before: EnsureStatus, hash: Seq<char>) -> bool {
    &&& opt(after.observed_config_hash) == Some(hash)
    &&& after.convoy_ref == before.convoy_ref
    &&& after.running_since == before.running_since
    &&& if config_step(before, hash) == (ConfigStep::Observe { changed: true }) {
        after.restart_count == 0 && after.retry_at is None && after.last_failure is None && !after.restart_limit_hold
    } else {
        after.restart_count == before.restart_count && after.retry_at == before.retry_at && after.last_failure
            == before.last_failure && after.restart_limit_hold == before.restart_limit_hold
    }
}

pub fn observe_config(status: EnsureStatus, hash: &str) -> (r: (EnsureStatus, ConfigStep))
    ensures
        config_observed(r.0, status, hash@),
        r.1 == config_step(status, hash@),
{
    if opt_is(&status.observed_config_hash, hash) {
        return (status, ConfigStep::Same);
    }
    let changed = status.observed_config_hash.is_some();
    let mut after = status;
    after.observed_config_hash = Some(hash.to_owned());
    if changed {
        after.restart_count = 0;
        after.retry_at = None;
        after.last_failure = None;
        after.restart_limit_hold = false;
    }
    (after, ConfigStep::Observe { changed })
}

/// A convoy, as an ensure sees it.
#[derive(Debug, PartialEq, Eq)]
pub struct EnsuredConvoy {
    pub name: String,
    pub project_ref: Option<String>,
    pub role: String,
    pub generation: u64,
    /// The ensure it was started for.
    pub ensured_from: Option<String>,
    pub phase: Option<ConvoyPhase>,
}

/// Whether a convoy is still on its way.
pub open spec fn lives(convoy: EnsuredConvoy) -> bool {
    convoy.phase is None || !terminal_phase(convoy.phase->0)
}

fn is_live(convoy: &EnsuredConvoy) -> (r: bool)
    ensures
        r == lives(*convoy),
{
    match convoy.phase {
        Some(phase) => !phase.is_terminal(),
        None => true,
    }
}

/// The live convoy of the highest generation that was started for the ensure.
pub open spec fn live_convoy(convoys: Seq<EnsuredConvoy>, ensure: Seq<char>) -> Option<int>
    decreases convoys.len(),
{
    if convoys.len() == 0 {
        None
    } else {
        let before = live_convoy(convoys.drop_last(), ensure);
        let last = convoys.last();
        if opt(last.ensured_from) == Some(ensure) && lives(last) {
            match before {
                Some(i) => if last.generation >= convoys[i].generation {
                    Some(convoys.len() - 1)
                } else {
                    Some(i)
                },
                None => Some(convoys.len() - 1),
            }
        } else {
            before
        }
    }
}

/// Which live convoy an ensure has, where it does not say.
pub fn find_live_convoy(convoys: &Vec<EnsuredConvoy>, ensure: &str) -> (r: Option<usize>)
    ensures
        match r {
            Some(i) => i < convoys@.len() && live_convoy(convoys@, ensure@) == Some(i as int),
            None => live_convoy(convoys@, ensure@) is None,
        },
{
    let mut best: Option<usize> = None;
    let mut i: usize = 0;
    while i < convoys.len()
        invariant
            i <= convoys@.len(),
            match best {
                Some(b) => b < i && live_convoy(convoys@.take(i as int), ensure@) == Some(b as int),
                None => live_convoy(convoys@.take(i as int), ensure@) is None,
            },
        decreases convoys.len() - i,
    {
        assert(convoys@.take(i + 1).drop_last() =~= convoys@.take(i as int));
        assert(convoys@.take(i + 1).last() == convoys@[i as int]);
        if opt_is(&convoys[i].ensured_from, ensure) && is_live(&convoys[i]) {
            best = match best {
                Some(b) => {
                    assert(convoys@.take(i + 1)[b as int] == convoys@[b as int]);
                    if convoys[i].generation >= convoys[b].generation {
                        Some(i)
                    } else {
                        Some(b)
                    }
                },
                None => Some(i),
            };
        }
        i = i + 1;
    }
    assert(convoys@.take(convoys@.len() as int) =~= convoys@);
    best
}

/// The convoy that an ensure says it has must be its own.
pub fn check_convoy_provenance(convoy_ref: &str, ensured_from: &Option<String>, ensure: &str) -> (r: Result<(), String>)
    ensures
        match r {
            Ok(()) => opt(*ensured_from) == Some(ensure@),
            Err(e) => opt(*ensured_from) != Some(ensure@) && e@ == "convoy "@ + convoy_ref@
                + " exists without this ensure's provenance"@,
        },
{
    if opt_is(ensured_from, ensure) {
        Ok(())
    } else {
        Err(concat3("convoy ", convoy_ref, " exists without this ensure's provenance"))
    }
}

/// What is written to an ensure.
#[derive(Debug, PartialEq, Eq)]
#[allow(inconsistent_fields)]
pub enum EnsurePatch {
    Running { convoy_ref: String, observed_at: Timestamp },
    ResetBackoff,
    Holding { convoy_ref: String, failure: String },
    RestartLimitReached { convoy_ref: String, failure: String },
    BackingOff { retry_at: Timestamp, failure: String },
    Retrying { retry_at: Timestamp, failure: String },
}

/// A demand for an operator's attention.
#[derive(Debug, PartialEq, Eq)]
pub struct EnsureAttention {
    pub reason: String,
    pub escalates_at: Option<Timestamp>,
}

/// What is done about an ensure, in this order.
#[derive(Debug, PartialEq, Eq)]
pub struct EnsureActions {
    /// Withdraw the demand for attention.
    pub clear: bool,
    pub raise: Option<EnsureAttention>,
    pub patch: Option<EnsurePatch>,
    /// Start another generation.
    pub start: bool,
    /// What is reported.
    pub change: Option<String>,
}

/// What to find out, or to do, next.
#[derive(Debug, PartialEq, Eq)]
pub enum EnsureStep {
    /// Is the demand for attention still open?
    AskAttention,
    /// Is the backing of the convoy known to be dead?
    AskBacking,
    Act { actions: EnsureActions },
}

/// What was found out.
#[derive(Default, Debug, PartialEq, Eq)]
pub struct EnsureReadings {
    pub attention_open: Option<bool>,
    pub backing_dead: Option<Result<(), String>>,
}

/// Nothing is done.
pub open spec fn idle(actions: EnsureActions, clear: bool) -> bool {
    &&& actions.clear == clear
    &&& actions.raise is None
    &&& actions.patch is None
    &&& !actions.start
    &&& actions.change is None
}

/// The change that is reported of an ensure.
pub open spec fn ensure_change(name: Seq<char>, what: Seq<char>) -> Seq<char> {
    "ConvoyEnsure/"@ + name + what
}

/// The phases in which a standing convoy has failed.
pub open spec fn has_failed(phase: Option<ConvoyPhase>) -> bool {
    phase == Some(ConvoyPhase::Failed) || phase == Some(ConvoyPhase::Cancelled) || phase == Some(ConvoyPhase::Abandoned)
}

/// What is done about a convoy that runs.
pub open spec fn running_actions(actions: EnsureActions, name: Seq<char>, status: EnsureStatus, convoy: EnsuredConvoy, now: Timestamp) -> bool {
    if opt(status.convoy_ref) != Some(convoy.name@) || status.retry_at is Some || status.last_failure is Some {
        &&& actions.clear
        &&& actions.raise is None
        &&& (actions.patch matches Some(EnsurePatch::Running { convoy_ref, observed_at }) && convoy_ref@ == convoy.name@
            && observed_at == now)
        &&& !actions.start
        &&& opt(actions.change) == Some(ensure_change(name, " observed running"@))
    } else if status.restart_count > 0 && status.running_since is Some && elapsed(now, status.running_since->0)
        >= ENSURE_BACKOFF_RESET_SECS * 1_000_000_000 {
        &&& actions.clear
        &&& actions.raise is None
        &&& actions.patch == Some(EnsurePatch::ResetBackoff)
        &&& !actions.start
        &&& opt(actions.change) == Some(ensure_change(name, " reset restart backoff"@))
    } else {
        idle(actions, true)
    }
}

/// Whether a restart is put off.
pub open spec fn waits(retry_at: Option<Timestamp>, now: Timestamp) -> bool {
    retry_at is Some && earlier(now, retry_at->0)
}

/// The text of a failed generation.
pub open spec fn terminal_failure() -> Seq<char> {
    "ensured convoy entered a terminal failure phase"@
}

/// What is done about a failed convoy whose backing is dead.
pub open spec fn failed_actions(actions: EnsureActions, name: Seq<char>, status: EnsureStatus, convoy: EnsuredConvoy, now: Timestamp) -> bool {
    if status.retry_at is None {
        if status.restart_count + 1 >= ENSURE_MAX_CONSECUTIVE_FAILURES {
            let failure = terminal_failure() + "; "@ + decimal(3) + " consecutive generations failed"@;
            &&& actions.clear
            &&& (actions.raise matches Some(a) && a.reason@ == failure && parts(a.escalates_at) == Some(
                (now.secs() + ENSURE_ESCALATION_SECS, fraction_after(now.nanos(), ENSURE_ESCALATION_SECS as int)),
            ))
            &&& (actions.patch matches Some(EnsurePatch::RestartLimitReached { convoy_ref, failure: f }) && convoy_ref@
                == convoy.name@ && f@ == failure)
            &&& !actions.start
            &&& opt(actions.change) == Some(ensure_change(name, " exhausted restart budget"@))
        } else {
            let delay = retry_delay(status.restart_count as int);
            &&& actions.clear
            &&& actions.raise is None
            &&& (actions.patch matches Some(EnsurePatch::BackingOff { retry_at, failure }) && failure@
                == terminal_failure() && retry_at.secs() == now.secs() + delay && retry_at.nanos() == fraction_after(
                now.nanos(),
                delay,
            ) && opt(actions.change) == Some(
                ensure_change(
                    name,
                    " backing off until "@ + display_text(retry_at.secs() as i64, retry_at.nanos() as u32),
                ),
            ))
            &&& !actions.start
        }
    } else if waits(status.retry_at, now) {
        idle(actions, true)
    } else {
        starts(actions)
    }
}

/// Another generation is started.
pub open spec fn starts(actions: EnsureActions) -> bool {
    &&& actions.clear
    &&& actions.raise is None
    &&& actions.patch is None
    &&& actions.start
    &&& actions.change is None
}

/// What is done about a failed convoy whose backing is not known to be dead.
pub open spec fn held_actions(
    actions: EnsureActions,
    name: Seq<char>,
    status: EnsureStatus,
    convoy: EnsuredConvoy,
    reason: Seq<char>,
) -> bool {
    let failure = "standing convoy teardown held: "@ + reason;
    &&& !actions.clear
    &&& (actions.raise matches Some(a) && a.reason@ == failure && a.escalates_at is None)
    &&& !actions.start
    &&& if status.retry_at is Some || opt(status.last_failure) != Some(failure) {
        &&& (actions.patch matches Some(EnsurePatch::Holding { convoy_ref, failure: f }) && convoy_ref@ == convoy.name@
            && f@ == failure)
        &&& opt(actions.change) == Some(ensure_change(name, " held for operator attention"@))
    } else {
        actions.patch is None && actions.change is None
    }
}

/// `step` is what comes next for an ensure.
pub open spec fn ensure_decided(
    step: EnsureStep,
    name: Seq<char>,
    status: EnsureStatus,
    convoy: Option<EnsuredConvoy>,
    now: Timestamp,
    readings: EnsureReadings,
) -> bool {
    match convoy {
        None => step matches EnsureStep::Act { actions } && if waits(status.retry_at, now) {
            idle(actions, false)
        } else {
            starts(actions)
        },
        Some(convoy) => if !has_failed(convoy.phase) {
            step matches EnsureStep::Act { actions } && running_actions(actions, name, status, convoy, now)
        } else if status.restart_limit_hold {
            match readings.attention_open {
                None => step is AskAttention,
                Some(true) => step matches EnsureStep::Act { actions } && idle(actions, false),
                Some(false) => step matches EnsureStep::Act { actions } && actions.clear && actions.raise is None
                    && actions.patch == Some(EnsurePatch::ResetBackoff) && !actions.start && opt(actions.change) == Some(
                    ensure_change(name, " restart hold cleared"@),
                ),
            }
        } else if convoy.phase == Some(ConvoyPhase::Abandoned) {
            step matches EnsureStep::Act { actions } && failed_actions(actions, name, status, convoy, now)
        } else {
            match readings.backing_dead {
                None => step is AskBacking,
                Some(Err(reason)) => step matches EnsureStep::Act { actions } && held_actions(
                    actions,
                    name,
                    status,
                    convoy,
                    reason@,
                ),
                Some(Ok(())) => step matches EnsureStep::Act { actions } && failed_actions(
                    actions,
                    name,
                    status,
                    convoy,
                    now,
                ),
            }
        },
    }
}

fn after(now: &Timestamp, secs: u32) -> (r: Timestamp)
    requires
        now.secs() + secs <= LAST_SECOND,
    ensures
        r.secs() == now.secs() + secs,
        r.nanos() == fraction_after(now.nanos(), secs as int),
{
    match now.plus_secs(secs) {
        Some(t) => t,
        None => *now,
    }
}

fn nothing(clear: bool) -> (r: EnsureActions)
    ensures
        idle(r, clear),
{
    EnsureActions { clear, raise: None, patch: None, start: false, change: None }
}

fn start_another() -> (r: EnsureActions)
    ensures
        starts(r),
{
    EnsureActions { clear: true, raise: None, patch: None, start: true, change: None }
}

fn put_off(retry_at: &Option<Timestamp>, now: &Timestamp) -> (r: bool)
    ensures
        r == waits(*retry_at, *now),
{
    match retry_at {
        Some(at) => now.is_before(at),
        None => false,
    }
}

fn act_on_running(name: &str, status: &EnsureStatus, convoy: &EnsuredConvoy, now: &Timestamp) -> (actions: EnsureActions)
    ensures
        running_actions(actions, name@, *status, *convoy, *now),
{
    if !opt_is(&status.convoy_ref, convoy.name.as_str()) || status.retry_at.is_some() || status.last_failure.is_some() {
        return EnsureActions {
            clear: true,
            raise: None,
            patch: Some(EnsurePatch::Running { convoy_ref: convoy.name.clone(), observed_at: *now }),
            start: false,
            change: Some(concat3("ConvoyEnsure/", name, " observed running")),
        };
    }
    let long_enough = match &status.running_since {
        Some(since) => now.since(since) >= 600_000_000_000,
        None => false,
    };
    if status.restart_count > 0 && long_enough {
        return EnsureActions {
            clear: true,
            raise: None,
            patch: Some(EnsurePatch::ResetBackoff),
            start: false,
            change: Some(concat3("ConvoyEnsure/", name, " reset restart backoff")),
        };
    }
    nothing(true)
}

fn act_on_failed(name: &str, status: &EnsureStatus, convoy: &EnsuredConvoy, now: &Timestamp) -> (actions: EnsureActions)
    requires
        now.secs() + ENSURE_ESCALATION_SECS <= LAST_SECOND,
    ensures
        failed_actions(actions, name@, *status, *convoy, *now),
{
    if status.retry_at.is_none() {
        if status.restart_count >= 2 {
            let n = decimal_str(3);
            let failure = concat4(
                "ensured convoy entered a terminal failure phase",
                "; ",
                n.as_str(),
                " consecutive generations failed",
            );
            let deadline = after(now, ENSURE_ESCALATION_SECS);
            return EnsureActions {
                clear: true,
                raise: Some(EnsureAttention { reason: failure.clone(), escalates_at: Some(deadline) }),
                patch: Some(EnsurePatch::RestartLimitReached { convoy_ref: convoy.name.clone(), failure }),
                start: false,
                change: Some(concat3("ConvoyEnsure/", name, " exhausted restart budget")),
            };
        }
        let retry_at = after(now, ensure_retry_delay(status.restart_count));
        let shown = retry_at.to_text();
        let what = concat2(" backing off until ", shown.as_str());
        return EnsureActions {
            clear: true,
            raise: None,
            patch: Some(
                EnsurePatch::BackingOff {
                    retry_at,
                    failure: "ensured convoy entered a terminal failure phase".to_owned(),
                },
            ),
            start: false,
            change: Some(concat3("ConvoyEnsure/", name, what.as_str())),
        };
    }
    if put_off(&status.retry_at, now) {
        return nothing(true);
    }
    start_another()
}

/// Decides over a standing convoy. `convoy` is the one the ensure has, and
/// `readings` what was found out so far.
pub fn reconcile_convoy_ensure(
    name: &str,
    status: &EnsureStatus,
    convoy: &Option<EnsuredConvoy>,
    now: &Timestamp,
    readings: &EnsureReadings,
) -> (step: EnsureStep)
    requires
        now.secs() + ENSURE_ESCALATION_SECS <= LAST_SECOND,
    ensures
        ensure_decided(step, name@, *status, *convoy, *now, *readings),
{
    let convoy = match convoy {
        None => {
            return EnsureStep::Act {
                actions: if put_off(&status.retry_at, now) {
                    nothing(false)
                } else {
                    start_another()
                },
            };
        },
        Some(convoy) => convoy,
    };
    let failed = match convoy.phase {
        Some(ConvoyPhase::Failed) | Some(ConvoyPhase::Cancelled) | Some(ConvoyPhase::Abandoned) => true,
        _ => false,
    };
    if !failed {
        return EnsureStep::Act { actions: act_on_running(name, status, convoy, now) };
    }
    if status.restart_limit_hold {
        return match readings.attention_open {
            None => EnsureStep::AskAttention,
            Some(open) => {
                if open {
                    EnsureStep::Act { actions: nothing(false) }
                } else {
                    EnsureStep::Act {
                        actions: EnsureActions {
                            clear: true,
                            raise: None,
                            patch: Some(EnsurePatch::ResetBackoff),
                            start: false,
                            change: Some(concat3("ConvoyEnsure/", name, " restart hold cleared")),
                        },
                    }
                }
            },
        };
    }
    let forced = match convoy.phase {
        Some(ConvoyPhase::Abandoned) => true,
        _ => false,
    };
    if !forced {
        match &readings.backing_dead {
            None => {
                return EnsureStep::AskBacking;
            },
            Some(Err(reason)) => {
                let failure = concat2("standing convoy teardown held: ", reason.as_str());
                let attention = EnsureAttention { reason: failure.clone(), escalates_at: None };
                if status.retry_at.is_some() || !opt_is(&status.last_failure, failure.as_str()) {
                    return EnsureStep::Act {
                        actions: EnsureActions {
                            clear: false,
                            raise: Some(attention),
                            patch: Some(EnsurePatch::Holding { convoy_ref: convoy.name.clone(), failure }),
                            start: false,
                            change: Some(concat3("ConvoyEnsure/", name, " held for operator attention")),
                        },
                    };
                }
                return EnsureStep::Act {
                    actions: EnsureActions { clear: false, raise: Some(attention), patch: None, start: false, change: None },
                };
            },
            Some(Ok(())) => {},
        }
    }
    EnsureStep::Act { actions: act_on_failed(name, status, convoy, now) }
}

/// A convoy whose backing may still be alive is never replaced, unless an
/// operator abandoned it.
pub proof fn law_live_backing_is_never_replaced(
    step: EnsureStep,
    name: Seq<char>,
    status: EnsureStatus,
    convoy: EnsuredConvoy,
    now: Timestamp,
    readings: EnsureReadings,
)
    requires
        ensure_decided(step, name, status, Some(convoy), now, readings),
        convoy.phase != Some(ConvoyPhase::Abandoned),
        !(readings.backing_dead matches Some(Ok(_))),
    ensures
        step matches EnsureStep::Act { actions } ==> !actions.start,
{
}

/// `after` is what an ensure has on record once a patch was written to it.
/// Nothing else about it changes, but for the moment since when it runs.
pub open spec fn patched(after: EnsureStatus, before: EnsureStatus, patch: Option<EnsurePatch>) -> bool {
    &&& after.observed_config_hash == before.observed_config_hash
    &&& match patch {
        None => after == before,
        Some(EnsurePatch::Running { convoy_ref, observed_at }) => opt(after.convoy_ref) == Some(convoy_ref@)
            && after.restart_count == before.restart_count && after.retry_at is None && after.last_failure is None
            && after.restart_limit_hold == before.restart_limit_hold,
        Some(EnsurePatch::ResetBackoff) => after.convoy_ref == before.convoy_ref && after.restart_count == 0 && after.retry_at
            is None && after.last_failure is None && !after.restart_limit_hold,
        Some(EnsurePatch::Holding { convoy_ref, failure }) => opt(after.convoy_ref) == Some(convoy_ref@)
            && after.restart_count == before.restart_count && after.retry_at is None && opt(after.last_failure) == Some(failure@)
            && after.restart_limit_hold == before.restart_limit_hold,
        Some(EnsurePatch::RestartLimitReached { convoy_ref, failure }) => opt(after.convoy_ref) == Some(convoy_ref@)
            && after.retry_at is None && opt(after.last_failure) == Some(failure@) && after.restart_limit_hold,
        Some(EnsurePatch::BackingOff { retry_at, failure }) => after.convoy_ref == before.convoy_ref && after.restart_count
            == before.restart_count + 1 && after.retry_at == Some(retry_at) && opt(after.last_failure) == Some(failure@)
            && after.restart_limit_hold == before.restart_limit_hold,
        Some(EnsurePatch::Retrying { retry_at, failure }) => after.convoy_ref == before.convoy_ref && after.restart_count
            == before.restart_count && after.retry_at == Some(retry_at) && opt(after.last_failure) == Some(failure@)
            && after.restart_limit_hold == before.restart_limit_hold,
    }
}

/// One pass over an ensure whose failed convoy may still have a live backing:
/// its configuration is looked at, and `step` is acted on.
pub open spec fn holding_pass(
    step: EnsureStep,
    name: Seq<char>,
    hash: Seq<char>,
    status: EnsureStatus,
    next: EnsureStatus,
    convoy: EnsuredConvoy,
    now: Timestamp,
    reason: Seq<char>,
) -> bool {
    exists|seen: EnsureStatus, readings: EnsureReadings|
        {
            &&& #[trigger] config_observed(seen, status, hash)
            &&& (readings.backing_dead matches Some(Err(e)) && e@ == reason)
            &&& #[trigger] ensure_decided(step, name, seen, Some(convoy), now, readings)
            &&& (step matches EnsureStep::Act { actions } && patched(next, seen, actions.patch))
        }
}

/// Nothing is started, and an operator's attention is asked for.
pub open spec fn keeps_holding(step: EnsureStep, failure: Seq<char>) -> bool {
    step matches EnsureStep::Act { actions } && !actions.start && !actions.clear && (actions.raise matches Some(a) && a.reason@
        == failure)
}

/// While the backing of a failed convoy lives, the ensure is held: that is
/// reported once, every later pass is silent, however much time goes by, no
/// generation is started and no restart is counted. Each pass asks for an
/// operator's attention with the same reason.
pub proof fn law_a_hold_is_reported_once(
    steps: Seq<EnsureStep>,
    statuses: Seq<EnsureStatus>,
    times: Seq<Timestamp>,
    name: Seq<char>,
    hash: Seq<char>,
    convoy: EnsuredConvoy,
    reason: Seq<char>,
)
    requires
        steps.len() > 0,
        statuses.len() == steps.len() + 1,
        times.len() == steps.len(),
        has_failed(convoy.phase),
        convoy.phase != Some(ConvoyPhase::Abandoned),
        opt(statuses[0].observed_config_hash) == Some(hash),
        !statuses[0].restart_limit_hold,
        opt(statuses[0].last_failure) != Some("standing convoy teardown held: "@ + reason),
        forall|i: int|
            0 <= i < steps.len() ==> holding_pass(
                #[trigger] steps[i],
                name,
                hash,
                statuses[i],
                statuses[i + 1],
                convoy,
                times[i],
                reason,
            ),
    ensures
        steps[0] matches EnsureStep::Act { actions } && opt(actions.change) == Some(
            ensure_change(name, " held for operator attention"@),
        ),
        forall|i: int| 1 <= i < steps.len() ==> (#[trigger] steps[i] matches EnsureStep::Act { actions } && actions.change is None),
        forall|i: int| 0 <= i < steps.len() ==> keeps_holding(#[trigger] steps[i], "standing convoy teardown held: "@ + reason),
        statuses.last().restart_count == statuses[0].restart_count,
        opt(statuses.last().convoy_ref) == Some(convoy.name@),
        opt(statuses.last().last_failure) == Some("standing convoy teardown held: "@ + reason),
    decreases steps.len(),
{
    let n = steps.len() - 1;
    assert(holding_pass(steps[n], name, hash, statuses[n], statuses[n + 1], convoy, times[n], reason));
    if n > 0 {
        let earlier_steps = steps.drop_last();
        let earlier_statuses = statuses.drop_last();
        assert forall|i: int| 0 <= i < earlier_steps.len() implies holding_pass(
            #[trigger] earlier_steps[i],
            name,
            hash,
            earlier_statuses[i],
            earlier_statuses[i + 1],
            convoy,
            times.drop_last()[i],
            reason,
        ) by {
            assert(earlier_steps[i] == steps[i]);
        }
        law_a_hold_is_reported_once(earlier_steps, earlier_statuses, times.drop_last(), name, hash, convoy, reason);
        lemma_held_stays_held(steps, statuses, times, name, hash, convoy, reason, n);
        assert(earlier_statuses.last() == statuses[n]);
        assert(earlier_steps[0] == steps[0]);
        assert forall|i: int| 0 <= i < n implies #[trigger] steps[i] == earlier_steps[i] by {}
    }
}

proof fn lemma_held_stays_held(
    steps: Seq<EnsureStep>,
    statuses: Seq<EnsureStatus>,
    times: Seq<Timestamp>,
    name: Seq<char>,
    hash: Seq<char>,
    convoy: EnsuredConvoy,
    reason: Seq<char>,
    n: int,
)
    requires
        1 <= n <= steps.len(),
        statuses.len() == steps.len() + 1,
        times.len() == steps.len(),
        has_failed(convoy.phase),
        convoy.phase != Some(ConvoyPhase::Abandoned),
        opt(statuses[0].observed_config_hash) == Some(hash),
        !statuses[0].restart_limit_hold,
        opt(statuses[0].last_failure) != Some("standing convoy teardown held: "@ + reason),
        forall|i: int|
            0 <= i < steps.len() ==> holding_pass(
                #[trigger] steps[i],
                name,
                hash,
                statuses[i],
                statuses[i + 1],
                convoy,
                times[i],
                reason,
            ),
    ensures
        opt(statuses[n].observed_config_hash) == Some(hash),
        !statuses[n].restart_limit_hold,
        statuses[n].retry_at is None,
        opt(statuses[n].last_failure) == Some("standing convoy teardown held: "@ + reason),
        opt(statuses[n].convoy_ref) == Some(convoy.name@),
        statuses[n].restart_count == statuses[0].restart_count,
    decreases n,
{
    assert(holding_pass(steps[n - 1], name, hash, statuses[n - 1], statuses[n], convoy, times[n - 1], reason));
    if n > 1 {
        lemma_held_stays_held(steps, statuses, times, name, hash, convoy, reason, n - 1);
    }
}

/// A convoy that is gone is started again at once, unless a retry is due later;
/// no restart is counted for it.
pub proof fn law_missing_convoys_are_started_at_once(
    step: EnsureStep,
    name: Seq<char>,
    status: EnsureStatus,
    now: Timestamp,
    readings: EnsureReadings,
)
    requires
        ensure_decided(step, name, status, None, now, readings),
        !waits(status.retry_at, now),
    ensures
        step matches EnsureStep::Act { actions } && actions.start && actions.patch is None,
{
}

/// A standing convoy that failed too often in a row is not started again.
pub proof fn law_restart_budget_holds(
    step: EnsureStep,
    name: Seq<char>,
    status: EnsureStatus,
    convoy: EnsuredConvoy,
    now: Timestamp,
    readings: EnsureReadings,
)
    requires
        ensure_decided(step, name, status, Some(convoy), now, readings),
        status.restart_limit_hold || (status.retry_at is None && status.restart_count + 1
            >= ENSURE_MAX_CONSECUTIVE_FAILURES),
    ensures
        step matches EnsureStep::Act { actions } ==> !actions.start,
{
}

/// No generation is started while one runs.
pub proof fn law_one_generation_at_a_time(
    step: EnsureStep,
    name: Seq<char>,
    status: EnsureStatus,
    convoy: EnsuredConvoy,
    now: Timestamp,
    readings: EnsureReadings,
)
    requires
        ensure_decided(step, name, status, Some(convoy), now, readings),
        !has_failed(convoy.phase),
    ensures
        step matches EnsureStep::Act { actions } && !actions.start,
{
}

/// `r` is what is written and reported once a start went one way or another.
pub open spec fn start_reported(
    r: (EnsurePatch, Result<Option<String>, String>),
    started: Result<String, String>,
    role: Seq<char>,
    project: Seq<char>,
    restarts: u32,
    now: Timestamp,
) -> bool {
    match started {
        Ok(convoy) => {
            &&& (r.0 matches EnsurePatch::Running { convoy_ref, observed_at } && convoy_ref@ == convoy@ && observed_at == now)
            &&& (r.1 matches Ok(Some(text)) && text@ == "started "@ + role + "@"@ + project)
        },
        Err(e) => {
            let delay = retry_delay(restarts as int);
            (r.0 matches EnsurePatch::Retrying { retry_at, failure } && failure@ == e@ && retry_at.secs() == now.secs()
                + delay && retry_at.nanos() == fraction_after(now.nanos(), delay) && (r.1 matches Err(text) && text@
                == "start failed; retry at "@ + display_text(retry_at.secs() as i64, retry_at.nanos() as u32) + ": "@ + e@))
        },
    }
}

/// What is written and reported once a generation was started, or was not.
pub fn report_start(
    started: &Result<String, String>,
    role: &str,
    project: &str,
    restart_count: u32,
    now: &Timestamp,
) -> (r: (EnsurePatch, Result<Option<String>, String>))
    requires
        now.secs() + ENSURE_ESCALATION_SECS <= LAST_SECOND,
    ensures
        start_reported(r, *started, role@, project@, restart_count, *now),
{
    match started {
        Ok(convoy) => (
            EnsurePatch::Running { convoy_ref: convoy.clone(), observed_at: *now },
            Ok(Some(concat4("started ", role, "@", project))),
        ),
        Err(e) => {
            let retry_at = after(now, ensure_retry_delay(restart_count));
            let shown = retry_at.to_text();
            (
                EnsurePatch::Retrying { retry_at, failure: e.clone() },
                Err(concat4("start failed; retry at ", shown.as_str(), ": ", e.as_str())),
            )
        },
    }
}

/// A generation of an ensure that its host drives.
#[derive(Debug, PartialEq, Eq)]
pub struct DrivenGeneration {
    pub generation: u64,
    pub phase: Option<ConvoyPhase>,
    pub created_at: Timestamp,
    pub name: String,
}

impl Ranked for DrivenGeneration {
    open spec fn ranks_before(self, other: Self) -> bool {
        self.generation <= other.generation
    }

    proof fn ranks_total(a: Self, b: Self) {
    }

    proof fn ranks_transitive(a: Self, b: Self, c: Self) {
    }

    fn rank_before(&self, other: &Self) -> (r: bool) {
        self.generation <= other.generation
    }
}

/// Whether a driven generation is still on its way.
pub open spec fn drives(g: DrivenGeneration) -> bool {
    g.phase is None || !terminal_phase(g.phase->0)
}

/// How many of the last generations failed in a row.
pub open spec fn failed_in_a_row(generations: Seq<DrivenGeneration>) -> nat
    decreases generations.len(),
{
    if generations.len() == 0 || generations.last().phase != Some(ConvoyPhase::Failed) {
        0
    } else {
        1 + failed_in_a_row(generations.drop_last())
    }
}

/// What is known of the demand for attention.
#[derive(Debug, Clone, Copy, PartialEq, Eq, Structural)]
pub enum DemandReading {
    Absent,
    Open,
    /// An operator settled it: the failures before are forgiven.
    Resolved,
}

/// What to find out, or to do, next about an ensure that its host drives.
#[derive(Debug, PartialEq, Eq)]
pub enum DriverStep {
    Idle,
    AskDemand,
    AskBacking,
    Fail { message: String },
    /// Demand attention for the last generation.
    Exhausted { attention: EnsureAttention, change: String },
    Start { forget_demand: bool, change: String },
}

/// `step` is what comes next for a driven ensure, whose generations are in
/// order.
pub open spec fn driver_decided(
    step: DriverStep,
    name: Seq<char>,
    role: Seq<char>,
    project: Seq<char>,
    generations: Seq<DrivenGeneration>,
    demand: Option<DemandReading>,
    backing_dead: Option<Result<(), String>>,
    now: Timestamp,
) -> bool {
    let failures = failed_in_a_row(generations);
    let start = step matches DriverStep::Start { forget_demand, change } && forget_demand == (demand == Some(
        DemandReading::Resolved,
    )) && change@ == "started "@ + role + "@"@ + project;
    if generations.len() > 0 && drives(generations.last()) {
        step is Idle
    } else {
        match demand {
            None => step is AskDemand,
            Some(DemandReading::Open) => step is Idle,
            Some(DemandReading::Resolved) => start,
            Some(DemandReading::Absent) => if failures >= ENSURE_MAX_CONSECUTIVE_FAILURES {
                step matches DriverStep::Exhausted { attention, change } && attention.reason@ == terminal_failure() + "; "@
                    + decimal(failures) + " consecutive generations failed"@ && parts(attention.escalates_at) == Some(
                    (now.secs() + ENSURE_ESCALATION_SECS, fraction_after(now.nanos(), ENSURE_ESCALATION_SECS as int)),
                ) && change@ == ensure_change(name, " exhausted restart budget"@)
            } else if failures > 0 {
                match backing_dead {
                    None => step is AskBacking,
                    Some(Err(e)) => step matches DriverStep::Fail { message } && message@ == e@,
                    Some(Ok(())) => {
                        let created = generations.last().created_at;
                        let delay = retry_delay(failures - 1);
                        if retry_later(created, delay, now) {
                            step is Idle
                        } else {
                            start
                        }
                    },
                }
            } else {
                start
            },
        }
    }
}

/// Whether so long after one instant is still after another.
pub open spec fn retry_later(created: Timestamp, delay: int, now: Timestamp) -> bool {
    let secs = created.secs() + delay;
    let nanos = fraction_after(created.nanos(), delay);
    now.secs() < secs || (now.secs() == secs && now.nanos() < nanos)
}

fn count_failures(generations: &Vec<DrivenGeneration>) -> (r: usize)
    ensures
        r == failed_in_a_row(generations@),
{
    let mut n: usize = generations.len();
    let mut count: usize = 0;
    assert(generations@.take(n as int) =~= generations@);
    while n > 0
        invariant
            n <= generations@.len(),
            count + n == generations@.len(),
            generations@.len() <= usize::MAX,
            failed_in_a_row(generations@) == count + failed_in_a_row(generations@.take(n as int)),
        decreases n,
    {
        let g = &generations[n - 1];
        assert(generations@.take(n as int).last() == *g);
        assert(generations@.take(n as int).drop_last() =~= generations@.take(n - 1));
        let failed = match g.phase {
            Some(ConvoyPhase::Failed) => true,
            _ => false,
        };
        if !failed {
            return count;
        }
        count = count + 1;
        n = n - 1;
    }
    count
}

/// Decides over an ensure that this host drives, from the generations it has.
/// Failed generations are the budget for restarts; an operator who settles the
/// demand, or deletes them, resets it.
pub fn reconcile_driver_convoy_ensure(
    name: &str,
    role: &str,
    project: &str,
    generations: &Vec<DrivenGeneration>,
    demand: Option<DemandReading>,
    backing_dead: &Option<Result<(), String>>,
    now: &Timestamp,
) -> (step: DriverStep)
    requires
        now.secs() + ENSURE_ESCALATION_SECS <= LAST_SECOND,
        forall|i: int|
            0 <= i < generations@.len() ==> (#[trigger] generations@[i]).created_at.secs() + ENSURE_MAX_RETRY_SECS
                <= LAST_SECOND,
    ensures
        driver_decided(step, name@, role@, project@, generations@, demand, *backing_dead, *now),
{
    let n: usize = generations.len();
    if n > 0 {
        let live = match generations[n - 1].phase {
            Some(phase) => !phase.is_terminal(),
            None => true,
        };
        if live {
            return DriverStep::Idle;
        }
    }
    let failures = count_failures(generations);
    let resolved = match demand {
        None => {
            return DriverStep::AskDemand;
        },
        Some(DemandReading::Open) => {
            return DriverStep::Idle;
        },
        Some(DemandReading::Resolved) => true,
        Some(DemandReading::Absent) => false,
    };
    if !resolved && failures >= 3 {
        let count = decimal_str(failures as u64);
        let reason = concat4(
            "ensured convoy entered a terminal failure phase",
            "; ",
            count.as_str(),
            " consecutive generations failed",
        );
        return DriverStep::Exhausted {
            attention: EnsureAttention { reason, escalates_at: Some(after(now, ENSURE_ESCALATION_SECS)) },
            change: concat3("ConvoyEnsure/", name, " exhausted restart budget"),
        };
    }
    if !resolved && failures > 0 {
        match backing_dead {
            None => {
                return DriverStep::AskBacking;
            },
            Some(Err(e)) => {
                return DriverStep::Fail { message: e.clone() };
            },
            Some(Ok(())) => {},
        }
        let created = &generations[n - 1].created_at;
        let delay = ensure_retry_delay((failures - 1) as u32);
        let retry_at = after(created, delay);
        if now.is_before(&retry_at) {
            return DriverStep::Idle;
        }
    }
    DriverStep::Start { forget_demand: resolved, change: concat4("started ", role, "@", project) }
}

/// The generations in order.
pub fn sort_generations(generations: Vec<DrivenGeneration>) -> (r: Vec<DrivenGeneration>)
    ensures
        r@ == rank_sort(generations@),
{
    sort_ranked(generations)
}

/// What was found out about the host that drives an ensure.
#[derive(Debug, PartialEq, Eq)]
pub struct DriverReading {
    /// The host that the driver reference means.
    pub target: Result<Option<String>, String>,
    /// Whether that host is ready, where it is another one.
    pub reachable: Result<bool, String>,
}

/// What is done about an ensure with a driver.
#[derive(Debug, PartialEq, Eq)]
#[allow(inconsistent_fields)]
pub enum DriverRoute {
    /// Record why the driver cannot admit it.
    Condition { reason: String, message: String },
    ClearCondition,
    /// This host drives it.
    Drive,
    Fail { message: String },
}

/// `r` is what is done about an ensure with a driver.
pub open spec fn driver_routed(
    r: DriverRoute,
    ensure: Seq<char>,
    driver: Seq<char>,
    reading: DriverReading,
    local_host: Option<Seq<char>>,
) -> bool {
    match reading.target {
        Ok(None) => r matches DriverRoute::Condition { reason, message } && reason@ == "UnknownDriver"@ && message@
            == "driver host `"@ + driver + "` is unknown"@,
        Err(e) => r matches DriverRoute::Condition { reason, message } && reason@ == "DriverUnreachable"@ && message@
            == "driver host `"@ + driver + "` could not be resolved: "@ + e@,
        Ok(Some(target)) => if local_host == Some(target@) {
            r is Drive
        } else {
            match reading.reachable {
                Err(e) => r matches DriverRoute::Fail { message } && message@ == "ConvoyEnsure/"@ + ensure
                    + ": could not inspect driver host `"@ + driver + "` reachability: "@ + e@,
                Ok(true) => r is ClearCondition,
                Ok(false) => r matches DriverRoute::Condition { reason, message } && reason@ == "DriverUnreachable"@
                    && message@ == "driver host `"@ + driver + "` is not reachable"@,
            }
        },
    }
}

pub fn driver_route(ensure: &str, driver: &str, reading: &DriverReading, local_host: &Option<String>) -> (r: DriverRoute)
    ensures
        driver_routed(r, ensure@, driver@, *reading, opt(*local_host)),
{
    match &reading.target {
        Ok(None) => DriverRoute::Condition {
            reason: "UnknownDriver".to_owned(),
            message: concat3("driver host `", driver, "` is unknown"),
        },
        Err(e) => DriverRoute::Condition {
            reason: "DriverUnreachable".to_owned(),
            message: concat4("driver host `", driver, "` could not be resolved: ", e.as_str()),
        },
        Ok(Some(target)) => {
            if opt_is(local_host, target.as_str()) {
                return DriverRoute::Drive;
            }
            match &reading.reachable {
                Err(e) => DriverRoute::Fail {
                    message: concat6(
                        "ConvoyEnsure/",
                        ensure,
                        ": could not inspect driver host `",
                        driver,
                        "` reachability: ",
                        e.as_str(),
                    ),
                },
                Ok(ready) => {
                    if *ready {
                        DriverRoute::ClearCondition
                    } else {
                        DriverRoute::Condition {
                            reason: "DriverUnreachable".to_owned(),
                            message: concat3("driver host `", driver, "` is not reachable"),
                        }
                    }
                },
            }
        },
    }
}

/// A condition of an ensure.
#[derive(Debug, PartialEq, Eq)]
pub struct EnsureCondition {
    pub condition_type: String,
    pub reason: String,
    pub message: String,
}

/// Whether a condition is recorded as it is.
pub open spec fn recorded(conditions: Seq<EnsureCondition>, kind: Seq<char>, reason: Seq<char>, message: Seq<char>) -> bool {
    exists|i: int|
        0 <= i < conditions.len() && (#[trigger] conditions[i]).condition_type@ == kind && conditions[i].reason@ == reason
            && conditions[i].message@ == message
}

/// Whether a condition has to be written.
pub fn driver_condition_changed(conditions: &Vec<EnsureCondition>, kind: &str, reason: &str, message: &str) -> (r: bool)
    ensures
        r == !recorded(conditions@, kind@, reason@, message@),
{
    let mut i: usize = 0;
    while i < conditions.len()
        invariant
            i <= conditions@.len(),
            forall|k: int|
                0 <= k < i ==> !((#[trigger] conditions@[k]).condition_type@ == kind@ && conditions@[k].reason@ == reason@
                    && conditions@[k].message@ == message@),
        decreases conditions.len() - i,
    {
        if str_eq(conditions[i].condition_type.as_str(), kind) && str_eq(conditions[i].reason.as_str(), reason) && str_eq(
            conditions[i].message.as_str(),
            message,
        ) {
            return false;
        }
        i = i + 1;
    }
    true
}

/// Whether a condition of the kind has to be taken back.
pub fn driver_condition_recorded(conditions: &Vec<EnsureCondition>, kind: &str) -> (r: bool)
    ensures
        r == exists|i: int| 0 <= i < conditions@.len() && (#[trigger] conditions@[i]).condition_type@ == kind@,
{
    let mut i: usize = 0;
    while i < conditions.len()
        invariant
            i <= conditions@.len(),
            forall|k: int| 0 <= k < i ==> (#[trigger] conditions@[k]).condition_type@ != kind@,
        decreases conditions.len() - i,
    {
        if str_eq(conditions[i].condition_type.as_str(), kind) {
            return true;
        }
        i = i + 1;
    }
    false
}

/// What was found out about the project of an ensure.
#[derive(Debug, PartialEq, Eq)]
#[allow(inconsistent_fields)]
pub enum ProjectAuthority {
    Here,
    /// It is homed elsewhere.
    Elsewhere,
    Absent,
    /// Whether it is homed here could not be read.
    LocalUnreadable { error: String },
    /// Whether it exists anywhere could not be read.
    Unreadable { error: String },
}

/// What is done about an ensure without a driver.
#[derive(Debug, PartialEq, Eq)]
pub enum HomeRoute {
    Reconcile,
    Skip,
    Fail { message: String },
}

/// An ensure is reconciled only where its project is homed.
pub fn home_route(ensure: &str, project: &str, authority: &ProjectAuthority) -> (r: HomeRoute)
    ensures
        match *authority {
            ProjectAuthority::Here => r is Reconcile,
            ProjectAuthority::Elsewhere => r is Skip,
            ProjectAuthority::Absent => r matches HomeRoute::Fail { message } && message@ == "ConvoyEnsure/"@ + ensure@
                + ": parent Project/"@ + project@ + " is absent"@,
            ProjectAuthority::LocalUnreadable { error } => r matches HomeRoute::Fail { message } && message@
                == "ConvoyEnsure/"@ + ensure@ + ": could not verify local Project/"@ + project@ + " authority: "@ + error@,
            ProjectAuthority::Unreadable { error } => r matches HomeRoute::Fail { message } && message@
                == "ConvoyEnsure/"@ + ensure@ + ": could not resolve Project/"@ + project@ + " authority: "@ + error@,
        },
{
    match authority {
        ProjectAuthority::Here => HomeRoute::Reconcile,
        ProjectAuthority::Elsewhere => HomeRoute::Skip,
        ProjectAuthority::Absent => HomeRoute::Fail {
            message: concat5("ConvoyEnsure/", ensure, ": parent Project/", project, " is absent"),
        },
        ProjectAuthority::LocalUnreadable { error } => HomeRoute::Fail {
            message: concat6(
                "ConvoyEnsure/",
                ensure,
                ": could not verify local Project/",
                project,
                " authority: ",
                error.as_str(),
            ),
        },
        ProjectAuthority::Unreadable { error } => HomeRoute::Fail {
            message: concat6(
                "ConvoyEnsure/",
                ensure,
                ": could not resolve Project/",
                project,
                " authority: ",
                error.as_str(),
            ),
        },
    }
}

/// `r` is what a pass over all ensures comes to: errors do not hide what was
/// changed.
pub open spec fn pass_outcome(r: Result<Vec<String>, String>, changes: Seq<Seq<char>>, errors: Seq<Seq<char>>) -> bool {
    if errors.len() == 0 {
        r matches Ok(list) && strs(list@) == changes
    } else if changes.len() == 0 {
        r matches Err(e) && e@ == join(errors, "; "@)
    } else {
        r matches Err(e) && e@ == join(errors, "; "@) + "; successful changes: "@ + join(changes, ", "@)
    }
}

pub fn ensures_outcome(changes: Vec<String>, errors: &Vec<String>) -> (r: Result<Vec<String>, String>)
    ensures
        pass_outcome(r, strs(changes@), strs(errors@)),
{
    assert(strs(changes@).len() == changes@.len());
    assert(strs(errors@).len() == errors@.len());
    if errors.len() == 0 {
        return Ok(changes);
    }
    let said = join_strs(errors, "; ");
    if changes.len() == 0 {
        return Err(said);
    }
    let done = join_strs(&changes, ", ");
    Err(concat3(said.as_str(), "; successful changes: ", done.as_str()))
}

/// What came of one ensure of a pass.
#[derive(Debug, PartialEq, Eq)]
pub enum PassEvent {
    /// It was reconciled, and this changed, if anything.
    Reconciled { change: Option<String> },
    /// Reconciling it failed.
    Failed { error: String },
    /// It could not be routed, for the reason that the message gives in full.
    Unrouted { message: String },
    ConditionUnrecorded { error: String },
    ConditionUncleared { error: String },
    /// It is not this host's, or nothing more is to be said of it.
    Passed,
}

/// The change that an event reports.
pub open spec fn event_change(event: PassEvent) -> Option<Seq<char>> {
    match event {
        PassEvent::Reconciled { change } => opt(change),
        _ => None,
    }
}

/// The error that an event of the ensure reports.
pub open spec fn event_error(ensure: Seq<char>, event: PassEvent) -> Option<Seq<char>> {
    match event {
        PassEvent::Failed { error } => Some("ConvoyEnsure/"@ + ensure + ": "@ + error@),
        PassEvent::Unrouted { message } => Some(message@),
        PassEvent::ConditionUnrecorded { error } => Some(
            "ConvoyEnsure/"@ + ensure + ": could not record driver condition: "@ + error@,
        ),
        PassEvent::ConditionUncleared { error } => Some(
            "ConvoyEnsure/"@ + ensure + ": could not clear driver condition: "@ + error@,
        ),
        _ => None,
    }
}

/// A list, and one more item where there is one.
pub open spec fn with_one(list: Seq<Seq<char>>, item: Option<Seq<char>>) -> Seq<Seq<char>> {
    match item {
        Some(item) => list.push(item),
        None => list,
    }
}

/// A pass over all ensures.
#[derive(Debug)]
pub struct EnsurePass {
    changes: Vec<String>,
    errors: Vec<String>,
}

impl EnsurePass {
    /// What changed so far.
    pub closed spec fn changes(&self) -> Seq<Seq<char>> {
        strs(self.changes@)
    }

    /// What failed so far.
    pub closed spec fn errors(&self) -> Seq<Seq<char>> {
        strs(self.errors@)
    }

    pub fn new() -> (r: Self)
        ensures
            r.changes().len() == 0,
            r.errors().len() == 0,
    {
        EnsurePass { changes: Vec::new(), errors: Vec::new() }
    }

    /// Takes note of what came of an ensure.
    pub fn note(&mut self, ensure: &str, event: PassEvent)
        ensures
            final(self).changes() == with_one(old(self).changes(), event_change(event)),
            final(self).errors() == with_one(old(self).errors(), event_error(ensure@, event)),
    {
        let ghost changes = strs(self.changes@);
        let ghost errors = strs(self.errors@);
        match event {
            PassEvent::Reconciled { change } => match change {
                Some(change) => {
                    self.changes.push(change);
                    assert(strs(self.changes@) =~= changes.push(change@));
                },
                None => {},
            },
            PassEvent::Failed { error } => {
                let line = concat4("ConvoyEnsure/", ensure, ": ", error.as_str());
                self.errors.push(line);
                assert(strs(self.errors@) =~= errors.push(line@));
            },
            PassEvent::Unrouted { message } => {
                self.errors.push(message);
                assert(strs(self.errors@) =~= errors.push(message@));
            },
            PassEvent::ConditionUnrecorded { error } => {
                let line = concat4("ConvoyEnsure/", ensure, ": could not record driver condition: ", error.as_str());
                self.errors.push(line);
                assert(strs(self.errors@) =~= errors.push(line@));
            },
            PassEvent::ConditionUncleared { error } => {
                let line = concat4("ConvoyEnsure/", ensure, ": could not clear driver condition: ", error.as_str());
                self.errors.push(line);
                assert(strs(self.errors@) =~= errors.push(line@));
            },
            PassEvent::Passed => {},
        }
    }

    /// What the pass comes to.
    pub fn outcome(self) -> (r: Result<Vec<String>, String>)
        ensures
            pass_outcome(r, self.changes(), self.errors()),
    {
        ensures_outcome(self.changes, &self.errors)
    }
}

/// What changed in a pass with these events.
pub open spec fn changes_of(events: Seq<PassEvent>) -> Seq<Seq<char>>
    decreases events.len(),
{
    if events.len() == 0 {
        Seq::empty()
    } else {
        with_one(changes_of(events.drop_last()), event_change(events.last()))
    }
}

/// An ensure that fails neither undoes nor keeps back what the others change.
pub proof fn law_failures_stay_apart(before: Seq<PassEvent>, failed: PassEvent, after: Seq<PassEvent>)
    requires
        event_change(failed) is None,
    ensures
        changes_of(before.push(failed) + after) == changes_of(before + after),
    decreases after.len(),
{
    if after.len() == 0 {
        assert(before.push(failed) + after =~= before.push(failed));
        assert(before.push(failed).drop_last() =~= before);
        assert(before + after =~= before);
    } else {
        law_failures_stay_apart(before, failed, after.drop_last());
        assert((before.push(failed) + after).drop_last() =~= before.push(failed) + after.drop_last());
        assert((before + after).drop_last() =~= before + after.drop_last());
    }
}

/// An environment that backs a convoy, with its phase where it has one.
#[derive(Debug, PartialEq, Eq)]
pub struct BackingEnvironment {
    pub name: String,
    pub phase: Option<String>,
}

/// The environments that are not known to be dead.
pub open spec fn not_dead(environments: Seq<BackingEnvironment>) -> Seq<Seq<char>>
    decreases environments.len(),
{
    if environments.len() == 0 {
        Seq::empty()
    } else {
        let before = not_dead(environments.drop_last());
        let last = environments.last();
        if opt(last.phase) == Some("Failed"@) {
            before
        } else {
            before.push(
                "Environment/"@ + last.name@ + " is "@ + (match last.phase {
                    Some(phase) => phase@,
                    None => "Pending"@,
                }),
            )
        }
    }
}

/// The backing of a convoy is dead only where there is evidence of it, and
/// all of it says so.
pub fn verify_standing_convoy_resource_backing_dead(environments: &Vec<BackingEnvironment>) -> (r: Result<(), String>)
    ensures
        if environments@.len() == 0 {
            r matches Err(e) && e@ == "no backing environment evidence is available"@
        } else if not_dead(environments@).len() == 0 {
            r is Ok
        } else {
            r matches Err(e) && e@ == "backing is not verified dead: "@ + join(not_dead(environments@), ", "@)
        },
{
    if environments.len() == 0 {
        return Err("no backing environment evidence is available".to_owned());
    }
    let mut alive: Vec<String> = Vec::new();
    let mut i: usize = 0;
    assert(strs(alive@) =~= not_dead(environments@.take(0)));
    while i < environments.len()
        invariant
            i <= environments@.len(),
            strs(alive@) == not_dead(environments@.take(i as int)),
        decreases environments.len() - i,
    {
        let e = &environments[i];
        assert(environments@.take(i + 1).drop_last() =~= environments@.take(i as int));
        assert(environments@.take(i + 1).last() == *e);
        if !opt_is(&e.phase, "Failed") {
            let ghost was = strs(alive@);
            let phase = match &e.phase {
                Some(phase) => phase.as_str(),
                None => "Pending",
            };
            let text = concat4("Environment/", e.name.as_str(), " is ", phase);
            alive.push(text);
            assert(strs(alive@) =~= was.push(text@));
        }
        i = i + 1;
    }
    assert(environments@.take(environments@.len() as int) =~= environments@);
    assert(strs(alive@).len() == alive@.len());
    if alive.len() == 0 {
        Ok(())
    } else {
        let joined = join_strs(&alive, ", ");
        Err(concat2("backing is not verified dead: ", joined.as_str()))
    }
}

/// A standing convoy runs on a workflow that never exits.
pub fn check_no_exit(workflow_ref: &str, has_exit: bool) -> (r: Result<(), String>)
    ensures
        match r {
            Ok(()) => !has_exit,
            Err(e) => has_exit && e@ == "workflow template "@ + workflow_ref@
                + " declares an exit table; standing convoys require no exit declaration"@,
        },
{
    if has_exit {
        Err(
            concat3(
                "workflow template ",
                workflow_ref,
                " declares an exit table; standing convoys require no exit declaration",
            ),
        )
    } else {
        Ok(())
    }
}

/// Whether another live convoy plays the role in the project.
pub open spec fn role_taken(convoys: Seq<EnsuredConvoy>, project: Seq<char>, role: Seq<char>) -> bool {
    exists|i: int|
        0 <= i < convoys.len() && lives(#[trigger] convoys[i]) && opt(convoys[i].project_ref) == Some(project)
            && convoys[i].role@ == role
}

/// The convoy that an ensure already has is taken over; a live one of the same
/// role that it did not start is in the way.
pub fn ensured_convoy_slot(convoys: &Vec<EnsuredConvoy>, ensure: &str, project: &str, role: &str) -> (r: Result<Option<usize>, String>)
    ensures
        match live_convoy(convoys@, ensure@) {
            Some(i) => r matches Ok(Some(x)) && x == i && i < convoys@.len(),
            None => if role_taken(convoys@, project@, role@) {
                r matches Err(e) && e@ == "live convoy "@ + address_text(role@, Some(project@))
                    + " already exists outside this ensure"@
            } else {
                r == Ok::<Option<usize>, String>(None)
            },
        },
{
    match find_live_convoy(convoys, ensure) {
        Some(i) => {
            return Ok(Some(i));
        },
        None => {},
    }
    let mut i: usize = 0;
    while i < convoys.len()
        invariant
            i <= convoys@.len(),
            live_convoy(convoys@, ensure@) is None,
            forall|k: int|
                0 <= k < i ==> !(lives(#[trigger] convoys@[k]) && opt(convoys@[k].project_ref) == Some(project@)
                    && convoys@[k].role@ == role@),
        decreases convoys.len() - i,
    {
        if is_live(&convoys[i]) && opt_is(&convoys[i].project_ref, project) && str_eq(convoys[i].role.as_str(), role) {
            assert(role_taken(convoys@, project@, role@));
            let address = crate::address::convoy_address(role, Some(project));
            return Err(concat3("live convoy ", address.as_str(), " already exists outside this ensure"));
        }
        i = i + 1;
    }
    Ok(None)
}

/// What stands under the name of the convoy of an ensure.
#[derive(Debug, PartialEq, Eq)]
#[allow(inconsistent_fields)]
pub enum ReapReading {
    Absent,
    /// The ensure that it was started for.
    Found { ensured_from: Option<String> },
    Unreadable { error: String },
}

/// What is done next about an ensure that nobody asks for any more.
#[derive(Debug, PartialEq, Eq)]
#[allow(inconsistent_fields)]
pub enum RetireStep {
    AskConvoy { convoy: String },
    Reap { convoy: String, force: bool },
    Delete,
    Refuse { message: String },
}

/// `step` is what is done next about an ensure that nobody asks for any more:
/// its convoy is reaped, unforced, before the ensure is deleted.
pub open spec fn retired(
    step: RetireStep,
    ensure: Seq<char>,
    convoy_ref: Option<Seq<char>>,
    found: Option<ReapReading>,
    reaped: Option<Result<(), String>>,
) -> bool {
    let refuses = |e: Seq<char>| step matches RetireStep::Refuse { message } && message@ == e;
    match convoy_ref {
        None => step is Delete,
        Some(name) => match found {
            None => step matches RetireStep::AskConvoy { convoy } && convoy@ == name,
            Some(ReapReading::Absent) => step is Delete,
            Some(ReapReading::Unreadable { error }) => refuses(error@),
            Some(ReapReading::Found { ensured_from }) => if opt(ensured_from) != Some(ensure) {
                refuses("refusing to reap standing convoy: it is not owned by ConvoyEnsure/"@ + ensure)
            } else {
                match reaped {
                    None => step matches RetireStep::Reap { convoy, force } && convoy@ == name && !force,
                    Some(Err(e)) => refuses(e@),
                    Some(Ok(())) => step is Delete,
                }
            },
        },
    }
}

/// Decides over an ensure that nobody asks for any more. `convoy_ref` is the
/// convoy that it records, `found` what stands under that name, and `reaped`
/// how reaping it went.
pub fn retire_ensure(
    ensure: &str,
    convoy_ref: &Option<String>,
    found: &Option<ReapReading>,
    reaped: &Option<Result<(), String>>,
) -> (step: RetireStep)
    ensures
        retired(step, ensure@, opt(*convoy_ref), *found, *reaped),
{
    let name = match convoy_ref {
        None => {
            return RetireStep::Delete;
        },
        Some(name) => name,
    };
    match found {
        None => RetireStep::AskConvoy { convoy: name.clone() },
        Some(ReapReading::Absent) => RetireStep::Delete,
        Some(ReapReading::Unreadable { error }) => RetireStep::Refuse { message: error.clone() },
        Some(ReapReading::Found { ensured_from }) => {
            if !opt_is(ensured_from, ensure) {
                return RetireStep::Refuse {
                    message: concat2("refusing to reap standing convoy: it is not owned by ConvoyEnsure/", ensure),
                };
            }
            match reaped {
                None => RetireStep::Reap { convoy: name.clone(), force: false },
                Some(Err(e)) => RetireStep::Refuse { message: e.clone() },
                Some(Ok(())) => RetireStep::Delete,
            }
        },
    }
}

/// An ensure is deleted only once its convoy is gone, and nobody else's convoy
/// is reaped with it.
pub proof fn law_convoys_go_before_their_ensure(
    step: RetireStep,
    ensure: Seq<char>,
    convoy: Seq<char>,
    found: Option<ReapReading>,
    reaped: Option<Result<(), String>>,
)
    requires
        retired(step, ensure, Some(convoy), found, reaped),
    ensures
        step is Delete ==> found == Some(ReapReading::Absent) || (reaped matches Some(Ok(_))),
        step is Reap ==> (found matches Some(ReapReading::Found { ensured_from }) && opt(ensured_from) == Some(ensure)),
{
}

/// The state of a demand.
#[derive(Debug, Clone, Copy, PartialEq, Eq, Structural)]
pub enum DemandState {
    Raised,
    Escalated,
    /// It was answered, withdrawn or has lapsed.
    Settled,
}

/// What a demand that was looked up says. `found` is its state, where it
/// exists and has one.
pub fn read_demand(found: &Option<Option<DemandState>>) -> (r: DemandReading)
    ensures
        r == match *found {
            None => DemandReading::Absent,
            Some(None) => DemandReading::Open,
            Some(Some(DemandState::Settled)) => DemandReading::Resolved,
            Some(Some(_)) => DemandReading::Open,
        },
{
    match found {
        None => DemandReading::Absent,
        Some(None) => DemandReading::Open,
        Some(Some(DemandState::Settled)) => DemandReading::Resolved,
        Some(Some(DemandState::Raised)) | Some(Some(DemandState::Escalated)) => DemandReading::Open,
    }
}

/// Whether an operator's attention is still asked for.
pub fn ensure_attention_is_active(found: &Option<Option<DemandState>>) -> (r: bool)
    ensures
        r == (found matches Some(state) && state != Some(DemandState::Settled)),
{
    match read_demand(found) {
        DemandReading::Open => true,
        _ => false,
    }
}

/// The name of the demand for attention of an ensure.
pub fn ensure_demand_name(ensure: &str) -> (r: String)
    ensures
        r@ == "ensure-attention-"@ + ensure@,
{
    concat2("ensure-attention-", ensure)
}

/// A host that may drive ensures, with its readiness where it reported one.
#[derive(Debug, PartialEq, Eq)]
pub struct DriverHost {
    pub name: String,
    pub ready: Option<bool>,
}

/// Whether the first host of a name is ready.
pub open spec fn first_is_ready(hosts: Seq<DriverHost>, name: Seq<char>) -> bool
    decreases hosts.len(),
{
    if hosts.len() == 0 {
        false
    } else if hosts[0].name@ == name {
        hosts[0].ready == Some(true)
    } else {
        first_is_ready(hosts.drop_first(), name)
    }
}

/// Whether a driver can be reached.
pub fn driver_reachable(hosts: &Vec<DriverHost>, name: &str) -> (r: bool)
    ensures
        r == first_is_ready(hosts@, name@),
{
    let mut i: usize = 0;
    assert(hosts@.skip(0) =~= hosts@);
    while i < hosts.len()
        invariant
            i <= hosts@.len(),
            first_is_ready(hosts@, name@) == first_is_ready(hosts@.skip(i as int), name@),
        decreases hosts.len() - i,
    {
        assert(hosts@.skip(i as int)[0] == hosts@[i as int]);
        assert(hosts@.skip(i as int).drop_first() =~= hosts@.skip(i + 1));
        if str_eq(hosts[i].name.as_str(), name) {
            return match hosts[i].ready {
                Some(ready) => ready,
                None => false,
            };
        }
        i = i + 1;
    }
    false
}

/// The names of the annotations that say which ensure a convoy was started
/// for, and from what.
#[derive(Debug)]
pub struct EnsureAnnotationNames {
    pub ensured_from: String,
    pub provenance: String,
}

/// One annotation more, where the ensure carries it.
pub open spec fn carried(to: Map<Seq<char>, Seq<char>>, from: Map<Seq<char>, Seq<char>>, key: Seq<char>) -> Map<
    Seq<char>,
    Seq<char>,
> {
    if from.dom().contains(key) {
        to.insert(key, from[key])
    } else {
        to
    }
}

/// The annotations of a convoy that an ensure starts.
pub open spec fn ensured_annotations(
    own: Map<Seq<char>, Seq<char>>,
    ensure: Seq<char>,
    provenance: Seq<char>,
    presents_as: Option<Seq<char>>,
    ensure_names: EnsureAnnotationNames,
    names: AnnotationNames,
) -> Map<Seq<char>, Seq<char>> {
    let base = Map::<Seq<char>, Seq<char>>::empty().insert(ensure_names.ensured_from@, ensure).insert(
        ensure_names.provenance@,
        provenance,
    );
    let sourced = carried(
        carried(
            carried(carried(base, own, names.materialized_project@), own, names.source_repository@),
            own,
            names.source_commit@,
        ),
        own,
        names.source_entry_path@,
    );
    match presents_as {
        Some(text) => sourced.insert(names.presents_as@, text),
        None => sourced,
    }
}

fn carry(to: &mut OrderedMap<String>, from: &OrderedMap<String>, key: &str)
    ensures
        text_map(final(to)@) == carried(text_map(old(to)@), text_map(from@), key@),
{
    assert(text_map(from@).dom() =~= from@.dom());
    match from.get(key) {
        Some(value) => {
            put(to, key, value.as_str());
        },
        None => {},
    }
}

/// The annotations of a convoy that an ensure starts: what it was ensured
/// from, where the ensure itself came from, and what it is shown as.
pub fn ensured_convoy_annotations(
    own: &OrderedMap<String>,
    ensure: &str,
    presents_as: &Option<String>,
    ensure_names: &EnsureAnnotationNames,
    names: &AnnotationNames,
) -> (r: Result<OrderedMap<String>, String>)
    ensures
        match r {
            Ok(annotations) => text_map(own@).dom().contains(names.source_commit@) && text_map(annotations@)
                == ensured_annotations(
                text_map(own@),
                ensure@,
                "ensured from "@ + ensure@ + " @ "@ + text_map(own@)[names.source_commit@],
                opt(*presents_as),
                *ensure_names,
                *names,
            ),
            Err(e) => !text_map(own@).dom().contains(names.source_commit@) && e@
                == "materialized ensure has no source commit provenance"@,
        },
{
    assert(text_map(own@).dom() =~= own@.dom());
    let provenance = match own.get(names.source_commit.as_str()) {
        Some(commit) => concat4("ensured from ", ensure, " @ ", commit.as_str()),
        None => {
            return Err("materialized ensure has no source commit provenance".to_owned());
        },
    };
    let mut r: OrderedMap<String> = OrderedMap::new();
    assert(text_map(r@) =~= Map::<Seq<char>, Seq<char>>::empty());
    put(&mut r, ensure_names.ensured_from.as_str(), ensure);
    put(&mut r, ensure_names.provenance.as_str(), provenance.as_str());
    carry(&mut r, own, names.materialized_project.as_str());
    carry(&mut r, own, names.source_repository.as_str());
    carry(&mut r, own, names.source_commit.as_str());
    carry(&mut r, own, names.source_entry_path.as_str());
    match presents_as {
        Some(text) => {
            put(&mut r, names.presents_as.as_str(), text.as_str());
        },
        None => {},
    }
    Ok(r)
}

} // verus!
