//! Starting a generation of a standing convoy.
use std::sync::Arc;
use vstd::prelude::*;

use crate::address::address_text;
use crate::admission::ConvoyStartIntent;
use crate::creation::ConvoyAutoAttach;
use crate::ensure::{
    check_no_exit, ensured_annotations, ensured_convoy_annotations, ensured_convoy_slot, live_convoy, role_taken,
    EnsureAnnotationNames, EnsuredConvoy,
};
use crate::materialize::{put, AnnotationNames};
use crate::model::{share_opt, PlacementDecision};
use crate::ordered::{text_map, OrderedMap};
use crate::text::{opt, opt_clone, strs, strs_clone};

verus! {

/// What an ensure asks for.
#[derive(Debug)]
pub struct EnsureRequest {
    pub name: String,
    pub project_ref: String,
    pub role: String,
    pub workflow_ref: String,
    pub placement_policy: Option<String>,
    /// The repositories of the project that the convoy works on.
    pub repositories: Vec<String>,
    /// The stance that every vessel takes; the workflow's where none is given.
    pub stance: Option<String>,
    pub presents_as: Option<String>,
    pub annotations: OrderedMap<String>,
}

/// What an ensure asks to have admitted.
#[derive(Debug, PartialEq, Eq)]
pub struct EnsuredAdmission {
    pub intent: ConvoyStartIntent,
    pub repositories: Vec<String>,
    pub stance: Option<String>,
    pub auto_attach: ConvoyAutoAttach,
}

/// `a` is what an ensure asks to have admitted: its role is both the name and
/// the branch, and nobody is attached.
pub open spec fn asks_admission(a: EnsuredAdmission, namespace: Seq<char>, req: EnsureRequest) -> bool {
    &&& opt(a.intent.namespace) == Some(namespace)
    &&& a.intent.project_ref@ == req.project_ref@
    &&& opt(a.intent.name) == Some(req.role@)
    &&& opt(a.intent.branch) == Some(req.role@)
    &&& opt(a.intent.workflow_ref) == Some(req.workflow_ref@)
    &&& a.intent.inputs@.len() == 0
    &&& a.intent.instruction is None
    &&& opt(a.intent.placement_policy) == opt(req.placement_policy)
    &&& a.intent.change_request is None
    &&& a.intent.issues@.len() == 0
    &&& a.intent.agent_overrides@.len() == 0
    &&& strs(a.repositories@) == strs(req.repositories@)
    &&& opt(a.stance) == opt(req.stance)
    &&& a.auto_attach == ConvoyAutoAttach::Never
}

/// What an ensure asks to have admitted.
pub fn ensured_admission(namespace: &str, req: &EnsureRequest) -> (a: EnsuredAdmission)
    ensures
        asks_admission(a, namespace@, *req),
{
    EnsuredAdmission {
        intent: ConvoyStartIntent {
            namespace: Some(namespace.to_owned()),
            project_ref: req.project_ref.clone(),
            name: Some(req.role.clone()),
            branch: Some(req.role.clone()),
            workflow_ref: Some(req.workflow_ref.clone()),
            inputs: Vec::new(),
            instruction: None,
            placement_policy: opt_clone(&req.placement_policy),
            change_request: None,
            issues: Vec::new(),
            agent_overrides: Vec::new(),
        },
        repositories: strs_clone(&req.repositories),
        stance: opt_clone(&req.stance),
        auto_attach: ConvoyAutoAttach::Never,
    }
}

/// What was admitted of an ensure.
#[derive(Debug)]
pub struct EnsuredReading {
    /// Whether its workflow declares how it exits.
    pub has_exit: bool,
    /// Where it is placed.
    pub decision: Option<Arc<PlacementDecision>>,
}

/// What is known so far of a generation that is started.
#[derive(Default, Debug)]
pub struct EnsuredStartReadings {
    pub admission: Option<Result<EnsuredReading, String>>,
    pub local_space: Option<Result<(), String>>,
    pub remote_space: Option<Result<(), String>>,
    /// The convoys that are there once no other can be admitted.
    pub convoys: Option<Result<Vec<EnsuredConvoy>, String>>,
    pub generation: Option<Result<u64, String>>,
    /// The snapshot of the workflow, by its name.
    pub workflow: Option<Result<String, String>>,
    /// The snapshot of the placement, where the convoy has one.
    pub placement: Option<Result<Option<String>, String>>,
    /// The record of the convoy, by its name.
    pub created: Option<Result<String, String>>,
}

/// What comes next for a generation that is started.
#[derive(Debug)]
pub enum EnsuredStartStep {
    Prepare { admission: EnsuredAdmission },
    CheckLocalSpace,
    /// Is there room where the decision places it?
    CheckRemoteSpace { decision: Option<Arc<PlacementDecision>> },
    ListConvoys,
    Allocate,
    SnapshotWorkflow,
    SnapshotPlacement,
    Create { generation: u64, annotations: OrderedMap<String> },
    Fail { message: String },
    /// The convoy that stands in for the ensure.
    Standing { convoy: String },
}

/// The annotations under which a convoy keeps its snapshots.
#[derive(Debug)]
pub struct SnapshotNames {
    pub workflow: String,
    pub placement: String,
}

/// Annotations, and the snapshots that a convoy was made from.
pub open spec fn with_snapshots(
    annotations: Map<Seq<char>, Seq<char>>,
    names: SnapshotNames,
    workflow: Seq<char>,
    placement: Option<Seq<char>>,
) -> Map<Seq<char>, Seq<char>> {
    let with_workflow = annotations.insert(names.workflow@, workflow);
    match placement {
        Some(name) => with_workflow.insert(names.placement@, name),
        None => with_workflow,
    }
}

/// The annotations of the convoy that an ensure starts, but for its snapshots.
pub open spec fn annotations_of_ensure(req: EnsureRequest, ensure_names: EnsureAnnotationNames, names: AnnotationNames) -> Map<
    Seq<char>,
    Seq<char>,
> {
    ensured_annotations(
        text_map(req.annotations@),
        req.name@,
        "ensured from "@ + req.name@ + " @ "@ + text_map(req.annotations@)[names.source_commit@],
        opt(req.presents_as),
        ensure_names,
        names,
    )
}

/// `step` is what comes once the ensure may start a generation.
pub open spec fn generation_decided(
    step: EnsuredStartStep,
    req: EnsureRequest,
    rd: EnsuredStartReadings,
    annotations: Map<Seq<char>, Seq<char>>,
    snapshot_names: SnapshotNames,
) -> bool {
    let fails = |e: Seq<char>| step matches EnsuredStartStep::Fail { message } && message@ == e;
    match rd.generation {
        None => step is Allocate,
        Some(Err(e)) => fails(e@),
        Some(Ok(n)) => match rd.workflow {
            None => step is SnapshotWorkflow,
            Some(Err(e)) => fails(e@),
            Some(Ok(workflow)) => match rd.placement {
                None => step is SnapshotPlacement,
                Some(Err(e)) => fails(e@),
                Some(Ok(placement)) => match rd.created {
                    None => step matches EnsuredStartStep::Create { generation, annotations: a } && generation == n && text_map(
                        a@,
                    ) == with_snapshots(annotations, snapshot_names, workflow@, opt(placement)),
                    Some(Err(e)) => fails(e@),
                    Some(Ok(name)) => step matches EnsuredStartStep::Standing { convoy } && convoy@ == name@,
                },
            },
        },
    }
}

/// `step` is what comes once the ensure was admitted.
pub open spec fn slot_decided(
    step: EnsuredStartStep,
    req: EnsureRequest,
    rd: EnsuredStartReadings,
    annotations: Map<Seq<char>, Seq<char>>,
    snapshot_names: SnapshotNames,
) -> bool {
    let fails = |e: Seq<char>| step matches EnsuredStartStep::Fail { message } && message@ == e;
    match rd.convoys {
        None => step is ListConvoys,
        Some(Err(e)) => fails(e@),
        Some(Ok(convoys)) => match live_convoy(convoys@, req.name@) {
            Some(i) => step matches EnsuredStartStep::Standing { convoy } && convoy@ == convoys@[i].name@,
            None => if role_taken(convoys@, req.project_ref@, req.role@) {
                fails(
                    "live convoy "@ + address_text(req.role@, Some(req.project_ref@)) + " already exists outside this ensure"@,
                )
            } else {
                generation_decided(step, req, rd, annotations, snapshot_names)
            },
        },
    }
}

/// `step` is what comes next for a generation that is started.
pub open spec fn ensured_start_decided(
    step: EnsuredStartStep,
    namespace: Seq<char>,
    req: EnsureRequest,
    rd: EnsuredStartReadings,
    ensure_names: EnsureAnnotationNames,
    names: AnnotationNames,
    snapshot_names: SnapshotNames,
) -> bool {
    let fails = |e: Seq<char>| step matches EnsuredStartStep::Fail { message } && message@ == e;
    match rd.admission {
        None => step matches EnsuredStartStep::Prepare { admission } && asks_admission(admission, namespace, req),
        Some(Err(e)) => fails(e@),
        Some(Ok(admitted)) => match rd.local_space {
            None => step is CheckLocalSpace,
            Some(Err(e)) => fails(e@),
            Some(Ok(_)) => match rd.remote_space {
                None => step matches EnsuredStartStep::CheckRemoteSpace { decision } && decision == admitted.decision,
                Some(Err(e)) => fails(e@),
                Some(Ok(_)) => if admitted.has_exit {
                    fails(
                        "workflow template "@ + req.workflow_ref@
                            + " declares an exit table; standing convoys require no exit declaration"@,
                    )
                } else if !text_map(req.annotations@).dom().contains(names.source_commit@) {
                    fails("materialized ensure has no source commit provenance"@)
                } else {
                    slot_decided(step, req, rd, annotations_of_ensure(req, ensure_names, names), snapshot_names)
                },
            },
        },
    }
}

/// Decides what comes next for a generation that an ensure starts. The convoy
/// that the ensure already has stands in for it, however it came about.
pub fn start_ensured_convoy(
    namespace: &str,
    req: &EnsureRequest,
    rd: &EnsuredStartReadings,
    ensure_names: &EnsureAnnotationNames,
    names: &AnnotationNames,
    snapshot_names: &SnapshotNames,
) -> (step: EnsuredStartStep)
    ensures
        ensured_start_decided(step, namespace@, *req, *rd, *ensure_names, *names, *snapshot_names),
{
    let admitted = match &rd.admission {
        None => {
            return EnsuredStartStep::Prepare { admission: ensured_admission(namespace, req) };
        },
        Some(Err(e)) => {
            return EnsuredStartStep::Fail { message: e.clone() };
        },
        Some(Ok(admitted)) => admitted,
    };
    match &rd.local_space {
        None => {
            return EnsuredStartStep::CheckLocalSpace;
        },
        Some(Err(e)) => {
            return EnsuredStartStep::Fail { message: e.clone() };
        },
        Some(Ok(())) => {},
    }
    match &rd.remote_space {
        None => {
            return EnsuredStartStep::CheckRemoteSpace { decision: share_opt(&admitted.decision) };
        },
        Some(Err(e)) => {
            return EnsuredStartStep::Fail { message: e.clone() };
        },
        Some(Ok(())) => {},
    }
    match check_no_exit(req.workflow_ref.as_str(), admitted.has_exit) {
        Err(message) => {
            return EnsuredStartStep::Fail { message };
        },
        Ok(()) => {},
    }
    let mut annotations = match ensured_convoy_annotations(
        &req.annotations,
        req.name.as_str(),
        &req.presents_as,
        ensure_names,
        names,
    ) {
        Err(message) => {
            return EnsuredStartStep::Fail { message };
        },
        Ok(annotations) => annotations,
    };
    let convoys = match &rd.convoys {
        None => {
            return EnsuredStartStep::ListConvoys;
        },
        Some(Err(e)) => {
            return EnsuredStartStep::Fail { message: e.clone() };
        },
        Some(Ok(convoys)) => convoys,
    };
    match ensured_convoy_slot(convoys, req.name.as_str(), req.project_ref.as_str(), req.role.as_str()) {
        Err(message) => {
            return EnsuredStartStep::Fail { message };
        },
        Ok(Some(i)) => {
            return EnsuredStartStep::Standing { convoy: convoys[i].name.clone() };
        },
        Ok(None) => {},
    }
    let generation: u64 = match &rd.generation {
        None => {
            return EnsuredStartStep::Allocate;
        },
        Some(Err(e)) => {
            return EnsuredStartStep::Fail { message: e.clone() };
        },
        Some(Ok(n)) => *n,
    };
    let workflow = match &rd.workflow {
        None => {
            return EnsuredStartStep::SnapshotWorkflow;
        },
        Some(Err(e)) => {
            return EnsuredStartStep::Fail { message: e.clone() };
        },
        Some(Ok(workflow)) => workflow,
    };
    let placement = match &rd.placement {
        None => {
            return EnsuredStartStep::SnapshotPlacement;
        },
        Some(Err(e)) => {
            return EnsuredStartStep::Fail { message: e.clone() };
        },
        Some(Ok(placement)) => placement,
    };
    match &rd.created {
        Some(Err(e)) => EnsuredStartStep::Fail { message: e.clone() },
        Some(Ok(name)) => EnsuredStartStep::Standing { convoy: name.clone() },
        None => {
            put(&mut annotations, snapshot_names.workflow.as_str(), workflow.as_str());
            match placement {
                Some(name) => {
                    put(&mut annotations, snapshot_names.placement.as_str(), name.as_str());
                },
                None => {},
            }
            EnsuredStartStep::Create { generation, annotations }
        },
    }
}

/// An ensure never creates a convoy beside a live one of its own, nor in a
/// role that another live convoy plays.
pub proof fn law_standing_roles_are_played_once(
    step: EnsuredStartStep,
    namespace: Seq<char>,
    req: EnsureRequest,
    rd: EnsuredStartReadings,
    ensure_names: EnsureAnnotationNames,
    names: AnnotationNames,
    snapshot_names: SnapshotNames,
)
    requires
        ensured_start_decided(step, namespace, req, rd, ensure_names, names, snapshot_names),
        step is Create,
    ensures
        rd.convoys matches Some(Ok(convoys)) && live_convoy(convoys@, req.name@) is None && !role_taken(
            convoys@,
            req.project_ref@,
            req.role@,
        ),
{
}

} // verus!
