//! The plain values the daemon's decisions read and produce.
use std::sync::Arc;

use vstd::prelude::*;

use crate::time::Timestamp;

verus! {

/// `Arc::clone`: another pointer to the same value.
#[verifier::external_body]
pub(crate) fn share<T>(value: &Arc<T>) -> (r: Arc<T>)
    ensures
        r == *value,
{
    Arc::clone(value)
}

pub fn share_opt<T>(value: &Option<Arc<T>>) -> (r: Option<Arc<T>>)
    ensures
        r == *value,
{
    match value {
        Some(v) => Some(share(v)),
        None => None,
    }
}

/// Where a record was authored.
#[derive(Debug, PartialEq, Eq)]
pub enum Provenance {
    Local,
    Replica { origin_root: String, last_synced_at: Timestamp },
}

#[derive(Debug, Clone, Copy, PartialEq, Eq, Structural)]
pub enum SessionPhase {
    Starting,
    Running,
    Stopped,
    Failed,
}

#[derive(Debug, Clone, Copy, PartialEq, Eq, Structural)]
pub enum AttentionState {
    Working,
    NeedsInput,
    Idle,
    Unobservable,
}

#[derive(Debug, Clone, Copy, PartialEq, Eq, Structural)]
pub enum CrewAttention {
    Working,
    NeedsInput,
    Stalled,
    Idle,
    Unobservable,
    DeliveryUnconfirmed,
}

#[derive(Debug, Clone, Copy, PartialEq, Eq, Structural)]
pub enum CrewWorkPhase {
    Pending,
    Working,
    Done,
    HandedBack,
    Failed,
}

#[derive(Debug, Clone, Copy, PartialEq, Eq, Structural)]
pub enum ConvoyPhase {
    Pending,
    Active,
    Interrupted,
    Anchored,
    Landing,
    Landed,
    Failed,
    Cancelled,
    Abandoned,
}

#[derive(Debug, Clone, Copy, PartialEq, Eq, Structural)]
pub enum ConditionValue {
    True,
    False,
    Unknown,
}

/// The state of the connection to a peer.
#[derive(Debug, PartialEq, Eq)]
pub enum ConnectionState {
    Connected,
    Disconnected,
    Connecting,
    Reconnecting,
    Rejected { reason: String },
}

impl ConnectionState {
    pub fn copy(&self) -> (r: Self)
        ensures
            r == *self,
    {
        match self {
            ConnectionState::Connected => ConnectionState::Connected,
            ConnectionState::Disconnected => ConnectionState::Disconnected,
            ConnectionState::Connecting => ConnectionState::Connecting,
            ConnectionState::Reconnecting => ConnectionState::Reconnecting,
            ConnectionState::Rejected { reason } => ConnectionState::Rejected {
                reason: reason.clone(),
            },
        }
    }
}

/// What a terminal session's last look at its screen said.
#[derive(Debug, Clone, Copy, PartialEq, Eq)]
pub struct TerminalAttention {
    pub state: AttentionState,
    /// Whether the observation is too old to be relied on.
    pub stale: bool,
}

/// The agent a session runs.
#[derive(Debug, PartialEq, Eq)]
pub struct CrewIdentity {
    pub id: String,
    pub adapter: String,
    pub model: Option<String>,
    pub stance: String,
}

#[derive(Debug, PartialEq, Eq)]
pub struct SessionStatus {
    pub phase: SessionPhase,
    pub attention: Option<TerminalAttention>,
    pub degraded_reason: Option<String>,
    pub crew: Option<CrewIdentity>,
    pub completion_pending: Option<String>,
    pub delivered_message_id: Option<String>,
}

/// The labels that tie a session to its convoy.
#[derive(Debug, PartialEq, Eq)]
pub struct CrewLabels {
    pub convoy: Option<String>,
    pub vessel: Option<String>,
    pub role: Option<String>,
    pub vessel_ref: Option<String>,
}

/// What a session runs.
#[derive(Debug, PartialEq, Eq)]
pub enum SessionSource {
    Agent { namespace: String, convoy: String, vessel_ref: String },
    Tool,
}

#[derive(Debug, PartialEq, Eq)]
pub struct TerminalSession {
    pub name: String,
    pub namespace: String,
    pub labels: CrewLabels,
    pub role: String,
    pub env_ref: String,
    pub source: SessionSource,
    pub status: Option<SessionStatus>,
}

/// The phase of a session, where it has a status.
pub open spec fn session_phase(s: TerminalSession) -> Option<SessionPhase> {
    match s.status {
        Some(status) => Some(status.phase),
        None => None,
    }
}

impl TerminalSession {
    pub fn phase(&self) -> (r: Option<SessionPhase>)
        ensures
            r == session_phase(*self),
    {
        match &self.status {
            Some(status) => Some(status.phase),
            None => None,
        }
    }
}

/// A host a placement resolves to.
#[derive(Debug, PartialEq, Eq)]
pub struct PlacementTargetHost {
    pub reference: String,
    pub display_name: String,
}

impl PlacementTargetHost {
    pub fn copy(&self) -> (r: Self)
        ensures
            r == *self,
    {
        PlacementTargetHost { reference: self.reference.clone(), display_name: self.display_name.clone() }
    }
}

/// A policy that was refused, and why.
#[derive(Debug, PartialEq, Eq)]
pub struct PlacementRefusal {
    pub policy_name: String,
    pub target_host: PlacementTargetHost,
    pub reason: String,
}

/// A policy that would do but was not chosen, and why.
#[derive(Debug, PartialEq, Eq)]
pub struct PlacementViableCandidate {
    pub policy_name: String,
    pub target_host: PlacementTargetHost,
    pub reason: String,
}

#[derive(Debug, PartialEq, Eq)]
pub struct PlacementDecision {
    pub policy_name: String,
    pub target_host: PlacementTargetHost,
    pub refused_candidates: Vec<PlacementRefusal>,
    pub viable_not_selected: Vec<PlacementViableCandidate>,
}

/// The phases from which a convoy does not come back.
pub open spec fn terminal_phase(phase: ConvoyPhase) -> bool {
    phase == ConvoyPhase::Landed || phase == ConvoyPhase::Failed || phase == ConvoyPhase::Cancelled
        || phase == ConvoyPhase::Abandoned
}

impl ConvoyPhase {
    pub fn is_terminal(self) -> (r: bool)
        ensures
            r == terminal_phase(self),
    {
        match self {
            ConvoyPhase::Landed | ConvoyPhase::Failed | ConvoyPhase::Cancelled | ConvoyPhase::Abandoned => true,
            _ => false,
        }
    }
}

} // verus!
