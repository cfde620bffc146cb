//! Recording a new convoy: its snapshots, its record, and what follows it.
use std::sync::Arc;
use vstd::prelude::*;

use crate::creation::{
    convoy_labels, labels_of_convoy, prepared_snapshot_name, prepared_snapshot_step, ConvoyLabelNames, SnapshotReading,
};
use crate::ensure_start::{with_snapshots, SnapshotNames};
use crate::materialize::put;
use crate::model::{share, PlacementDecision};
use crate::ordered::{text_map, OrderedMap};
use crate::text::{opt, opt_clone};

verus! {

/// What was found out so far of a snapshot.
#[derive(Default, Debug)]
pub struct SnapshotReadings {
    /// The digest of what it is to hold.
    pub content: Option<Result<String, String>>,
    pub existing: Option<SnapshotReading>,
    pub created: Option<Result<(), String>>,
}

/// What a snapshot still needs.
#[derive(Debug, PartialEq, Eq)]
#[allow(inconsistent_fields)]
pub enum SnapshotNeed {
    /// The digest of what it is to hold.
    Digest,
    /// What stands under its name.
    Look { name: String },
    Create { name: String },
    Fail { message: String },
}

/// What a snapshot still needs, as plain values.
#[allow(inconsistent_fields)]
pub enum NeedView {
    Digest,
    Look(Seq<char>),
    Create(Seq<char>),
    Fail(Seq<char>),
}

impl View for SnapshotNeed {
    type V = NeedView;

    open spec fn view(&self) -> NeedView {
        match *self {
            SnapshotNeed::Digest => NeedView::Digest,
            SnapshotNeed::Look { name } => NeedView::Look(name@),
            SnapshotNeed::Create { name } => NeedView::Create(name@),
            SnapshotNeed::Fail { message } => NeedView::Fail(message@),
        }
    }
}

/// The name of a snapshot that is there, else what it still needs. One that
/// holds the same is kept, one that holds something else is refused.
pub open spec fn snapshot_of(kind: Seq<char>, rd: SnapshotReadings) -> Result<Seq<char>, NeedView> {
    match rd.content {
        None => Err(NeedView::Digest),
        Some(Err(e)) => Err(NeedView::Fail(e@)),
        Some(Ok(digest)) => {
            let name = kind + "-snapshot-"@ + digest@;
            match rd.existing {
                None => Err(NeedView::Look(name)),
                Some(SnapshotReading::Same) => Ok(name),
                Some(SnapshotReading::Different) => Err(
                    NeedView::Fail("prepared "@ + kind + " snapshot "@ + name + " already exists with different contents"@),
                ),
                Some(SnapshotReading::Unreadable { error }) => Err(NeedView::Fail(error@)),
                Some(SnapshotReading::Absent) => match rd.created {
                    None => Err(NeedView::Create(name)),
                    Some(Err(e)) => Err(NeedView::Fail(e@)),
                    Some(Ok(_)) => Ok(name),
                },
            }
        },
    }
}

/// The name of a snapshot once it is there, else what it still needs.
pub fn prepare_snapshot(kind: &str, rd: &SnapshotReadings) -> (r: Result<String, SnapshotNeed>)
    ensures
        match r {
            Ok(name) => snapshot_of(kind@, *rd) == Ok::<Seq<char>, NeedView>(name@),
            Err(need) => snapshot_of(kind@, *rd) == Err::<Seq<char>, NeedView>(need@),
        },
{
    let name = match &rd.content {
        None => {
            return Err(SnapshotNeed::Digest);
        },
        Some(Err(e)) => {
            return Err(SnapshotNeed::Fail { message: e.clone() });
        },
        Some(Ok(digest)) => prepared_snapshot_name(kind, digest.as_str()),
    };
    let missing = match &rd.existing {
        None => {
            return Err(SnapshotNeed::Look { name });
        },
        Some(existing) => match prepared_snapshot_step(kind, name.as_str(), existing) {
            Err(message) => {
                return Err(SnapshotNeed::Fail { message });
            },
            Ok(missing) => missing,
        },
    };
    if missing {
        match &rd.created {
            None => {
                return Err(SnapshotNeed::Create { name });
            },
            Some(Err(e)) => {
                return Err(SnapshotNeed::Fail { message: e.clone() });
            },
            Some(Ok(())) => {},
        }
    }
    Ok(name)
}

/// Whether the one who dispatches a convoy is taken to regard it.
#[derive(Debug, Clone, Copy, PartialEq, Eq, Structural)]
pub enum DispatchRegard {
    Emit,
    Suppress,
}

/// A convoy that is to be recorded.
#[derive(Debug)]
pub struct NewConvoy {
    pub role: String,
    pub project_ref: Option<String>,
    pub generation: u64,
    /// Who dispatches it; the namespace's own principal where nobody is named.
    pub dispatching_principal: Option<String>,
    /// Whether a policy places it.
    pub placed: bool,
    pub placement_decision: Option<Arc<PlacementDecision>>,
    pub regard: DispatchRegard,
}

/// What was done so far to record a convoy.
#[derive(Default, Debug)]
pub struct RecordReadings {
    pub created: Option<Result<(), String>>,
    pub decided: Option<Result<(), String>>,
    pub regarded: Option<Result<(), String>>,
}

/// What comes next for a convoy that is recorded.
#[derive(Debug)]
#[allow(inconsistent_fields)]
pub enum RecordStep {
    SnapshotWorkflow { need: SnapshotNeed },
    SnapshotPlacement { need: SnapshotNeed },
    Create { labels: OrderedMap<String>, annotations: OrderedMap<String> },
    SetDecision { decision: Arc<PlacementDecision> },
    EmitRegard { principal: Option<String> },
    Fail { message: String },
    Recorded,
}

/// `step` is what comes once the snapshots of a convoy are there: its record,
/// with its labels and its annotations; how it was placed; and the regard of
/// the one who dispatches it, which may fail.
pub open spec fn record_decided(
    step: RecordStep,
    convoy: NewConvoy,
    annotations: Map<Seq<char>, Seq<char>>,
    names: ConvoyLabelNames,
    rd: RecordReadings,
) -> bool {
    let fails = |e: Seq<char>| step matches RecordStep::Fail { message } && message@ == e;
    match (rd.created, convoy.placement_decision, rd.decided) {
        (None, _, _) => step matches RecordStep::Create { labels, annotations: a } && text_map(labels@) == labels_of_convoy(
            names,
            convoy.project_ref,
            convoy.role@,
            convoy.generation,
        ) && text_map(a@) == annotations,
        (Some(Err(e)), _, _) => fails(e@),
        (Some(Ok(_)), Some(made), None) => step matches RecordStep::SetDecision { decision } && decision == made,
        (Some(Ok(_)), Some(_), Some(Err(e))) => fails(e@),
        _ => if convoy.regard == DispatchRegard::Emit && rd.regarded is None {
            step matches RecordStep::EmitRegard { principal } && opt(principal) == opt(convoy.dispatching_principal)
        } else {
            step is Recorded
        },
    }
}

/// Decides what comes next for a convoy whose annotations are known.
pub fn create_convoy_with_annotations(
    convoy: &NewConvoy,
    annotations: OrderedMap<String>,
    names: &ConvoyLabelNames,
    rd: &RecordReadings,
) -> (step: RecordStep)
    ensures
        record_decided(step, *convoy, text_map(annotations@), *names, *rd),
{
    match &rd.created {
        None => {
            let labels = convoy_labels(names, &convoy.project_ref, convoy.role.as_str(), convoy.generation);
            return RecordStep::Create { labels, annotations };
        },
        Some(Err(e)) => {
            return RecordStep::Fail { message: e.clone() };
        },
        Some(Ok(())) => {},
    }
    match &convoy.placement_decision {
        Some(decision) => match &rd.decided {
            None => {
                return RecordStep::SetDecision { decision: share(decision) };
            },
            Some(Err(e)) => {
                return RecordStep::Fail { message: e.clone() };
            },
            Some(Ok(())) => {},
        },
        None => {},
    }
    if convoy.regard == DispatchRegard::Emit && rd.regarded.is_none() {
        RecordStep::EmitRegard { principal: opt_clone(&convoy.dispatching_principal) }
    } else {
        RecordStep::Recorded
    }
}

/// The snapshot of a convoy's placement, where a policy places it.
pub open spec fn placement_snapshot_of(placed: bool, rd: SnapshotReadings) -> Result<Option<Seq<char>>, NeedView> {
    if placed {
        match snapshot_of("placement"@, rd) {
            Ok(name) => Ok(Some(name)),
            Err(need) => Err(need),
        }
    } else {
        Ok(None)
    }
}

/// `step` is what comes for a snapshot that is not there yet.
pub open spec fn snapshot_decided(step: RecordStep, need: NeedView, of_workflow: bool) -> bool {
    match need {
        NeedView::Fail(e) => step matches RecordStep::Fail { message } && message@ == e,
        _ => if of_workflow {
            step matches RecordStep::SnapshotWorkflow { need: n } && n@ == need
        } else {
            step matches RecordStep::SnapshotPlacement { need: n } && n@ == need
        },
    }
}

/// `step` is what comes next for a convoy: its snapshots first, then its record.
pub open spec fn snapshots_decided(
    step: RecordStep,
    convoy: NewConvoy,
    names: ConvoyLabelNames,
    snapshot_names: SnapshotNames,
    workflow: SnapshotReadings,
    placement: SnapshotReadings,
    rd: RecordReadings,
) -> bool {
    match snapshot_of("workflow"@, workflow) {
        Err(need) => snapshot_decided(step, need, true),
        Ok(workflow) => match placement_snapshot_of(convoy.placed, placement) {
            Err(need) => snapshot_decided(step, need, false),
            Ok(placement) => record_decided(
                step,
                convoy,
                with_snapshots(Map::empty(), snapshot_names, workflow, placement),
                names,
                rd,
            ),
        },
    }
}

/// Decides what comes next for a convoy that is recorded with what it was made
/// from.
pub fn create_convoy_with_workflow_snapshot(
    convoy: &NewConvoy,
    names: &ConvoyLabelNames,
    snapshot_names: &SnapshotNames,
    workflow: &SnapshotReadings,
    placement: &SnapshotReadings,
    rd: &RecordReadings,
) -> (step: RecordStep)
    ensures
        snapshots_decided(step, *convoy, *names, *snapshot_names, *workflow, *placement, *rd),
{
    let mut annotations: OrderedMap<String> = OrderedMap::new();
    assert(text_map(annotations@) =~= Map::<Seq<char>, Seq<char>>::empty());
    match prepare_snapshot("workflow", workflow) {
        Err(SnapshotNeed::Fail { message }) => {
            return RecordStep::Fail { message };
        },
        Err(need) => {
            return RecordStep::SnapshotWorkflow { need };
        },
        Ok(name) => {
            put(&mut annotations, snapshot_names.workflow.as_str(), name.as_str());
        },
    }
    if convoy.placed {
        match prepare_snapshot("placement", placement) {
            Err(SnapshotNeed::Fail { message }) => {
                return RecordStep::Fail { message };
            },
            Err(need) => {
                return RecordStep::SnapshotPlacement { need };
            },
            Ok(name) => {
                put(&mut annotations, snapshot_names.placement.as_str(), name.as_str());
            },
        }
    }
    create_convoy_with_annotations(convoy, annotations, names, rd)
}

/// A convoy is recorded only once every snapshot that it names is there.
pub proof fn law_snapshots_come_before_their_convoy(
    step: RecordStep,
    convoy: NewConvoy,
    names: ConvoyLabelNames,
    snapshot_names: SnapshotNames,
    workflow: SnapshotReadings,
    placement: SnapshotReadings,
    rd: RecordReadings,
)
    requires
        snapshots_decided(step, convoy, names, snapshot_names, workflow, placement, rd),
        step is Create,
    ensures
        snapshot_of("workflow"@, workflow) is Ok,
        convoy.placed ==> snapshot_of("placement"@, placement) is Ok,
{
}

/// A convoy that is on record stays recorded, whether or not the one who
/// dispatches it could be taken to regard it.
pub proof fn law_regard_is_no_condition(
    step: RecordStep,
    convoy: NewConvoy,
    annotations: Map<Seq<char>, Seq<char>>,
    names: ConvoyLabelNames,
    rd: RecordReadings,
)
    requires
        record_decided(step, convoy, annotations, names, rd),
        rd.created matches Some(Ok(_)),
        convoy.placement_decision is Some ==> rd.decided matches Some(Ok(_)),
        rd.regarded is Some,
    ensures
        step is Recorded,
{
}

} // verus!
