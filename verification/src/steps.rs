//! Running a batch of steps for another node, one after the other.
use vstd::prelude::*;

use crate::repos::{repo_at, RepoIdentity, RepoRegistry};
use crate::text::{concat2, concat6, decimal, decimal_str, str_eq};

verus! {

/// A step of a batch.
#[derive(Debug, PartialEq, Eq)]
pub struct RemoteStep {
    /// The node it is for, and how its host is shown.
    pub node_id: String,
    pub shown_host: String,
    pub description: String,
}

/// What is said of a step.
#[derive(Debug, PartialEq, Eq)]
pub enum StepStatus {
    Started,
    Succeeded,
    Skipped,
    Failed { message: String },
}

/// What everyone hears of a step.
#[derive(Debug, PartialEq, Eq)]
pub struct StepProgress {
    pub batch_step_index: usize,
    pub batch_step_count: usize,
    pub description: String,
    pub status: StepStatus,
}

/// `p` says something of a step.
pub open spec fn says(p: StepProgress, steps: Seq<RemoteStep>, at: int, status: StepStatus) -> bool {
    &&& p.batch_step_index == at
    &&& p.batch_step_count == steps.len()
    &&& p.description@ == steps[at].description@
    &&& p.status == status
}

/// A batch that is run: how many of its steps are done.
#[derive(Debug)]
pub struct BatchRun {
    pub steps: Vec<RemoteStep>,
    pub done: usize,
}

/// What comes next in a batch.
#[derive(Debug, PartialEq, Eq)]
#[allow(inconsistent_fields)]
pub enum BatchStep {
    /// Say that the step starts, and take it.
    Take { progress: StepProgress },
    /// It is over: every step was taken, or this went wrong.
    Finish { outcome: Result<(), String> },
}

/// How a step that was taken went.
#[derive(Debug, PartialEq, Eq)]
pub enum StepResult {
    Succeeded,
    Skipped,
    Failed { message: String },
}

impl BatchRun {
    pub open spec fn well_formed(self) -> bool {
        self.done <= self.steps@.len()
    }

    pub fn new(steps: Vec<RemoteStep>) -> (r: Self)
        ensures
            r.well_formed(),
            r.steps == steps,
            r.done == 0,
    {
        BatchRun { steps, done: 0 }
    }

    /// What comes next. A step for another node ends the batch, and so does a
    /// cancellation.
    pub fn next_step(&self, local_node: &str, cancelled: bool) -> (r: BatchStep)
        requires
            self.well_formed(),
        ensures
            if self.done == self.steps@.len() {
                r matches BatchStep::Finish { outcome } && outcome is Ok
            } else {
                let step = self.steps@[self.done as int];
                if step.node_id@ != local_node@ {
                    r matches BatchStep::Finish { outcome: Err(e) } && e@ == "remote step "@ + decimal(self.done as nat)
                        + " targets "@ + step.shown_host@ + ", expected remote node "@ + local_node@
                } else if cancelled {
                    r matches BatchStep::Finish { outcome: Err(e) } && e@ == "cancelled"@
                } else {
                    r matches BatchStep::Take { progress } && says(
                        progress,
                        self.steps@,
                        self.done as int,
                        StepStatus::Started,
                    )
                }
            },
    {
        if self.done == self.steps.len() {
            return BatchStep::Finish { outcome: Ok(()) };
        }
        let step = &self.steps[self.done];
        if !str_eq(step.node_id.as_str(), local_node) {
            let at = decimal_str(self.done as u64);
            return BatchStep::Finish {
                outcome: Err(
                    concat6(
                        "remote step ",
                        at.as_str(),
                        " targets ",
                        step.shown_host.as_str(),
                        ", expected remote node ",
                        local_node,
                    ),
                ),
            };
        }
        if cancelled {
            return BatchStep::Finish { outcome: Err("cancelled".to_owned()) };
        }
        BatchStep::Take {
            progress: StepProgress {
                batch_step_index: self.done,
                batch_step_count: self.steps.len(),
                description: step.description.clone(),
                status: StepStatus::Started,
            },
        }
    }

    /// Notes how the step went: what is said of it, and whether the batch is
    /// over. A step that a cancellation caught is not spoken of.
    pub fn note(&mut self, result: StepResult, cancelled: bool) -> (r: (Option<StepProgress>, Option<String>))
        requires
            old(self).well_formed(),
            old(self).done < old(self).steps@.len(),
        ensures
            final(self).well_formed(),
            final(self).steps == old(self).steps,
            final(self).done == if cancelled || result is Failed {
                old(self).done as int
            } else {
                old(self).done + 1
            },
            if cancelled {
                r.0 is None && (r.1 matches Some(e) && e@ == "cancelled"@)
            } else {
                &&& r.0 matches Some(p)
                &&& says(
                    p,
                    old(self).steps@,
                    old(self).done as int,
                    match result {
                        StepResult::Succeeded => StepStatus::Succeeded,
                        StepResult::Skipped => StepStatus::Skipped,
                        StepResult::Failed { message } => StepStatus::Failed { message },
                    },
                )
                &&& match result {
                    StepResult::Failed { message } => r.1 matches Some(e) && e@ == message@,
                    _ => r.1 is None,
                }
            },
    {
        if cancelled {
            return (None, Some("cancelled".to_owned()));
        }
        let at: usize = self.done;
        let count: usize = self.steps.len();
        let description = self.steps[at].description.clone();
        let (status, failure) = match result {
            StepResult::Succeeded => (StepStatus::Succeeded, None),
            StepResult::Skipped => (StepStatus::Skipped, None),
            StepResult::Failed { message } => {
                let failure = message.clone();
                (StepStatus::Failed { message }, Some(failure))
            },
        };
        if failure.is_none() {
            self.done = at + 1;
        }
        (
            Some(StepProgress { batch_step_index: at, batch_step_count: count, description, status }),
            failure,
        )
    }
}

/// The repository that a batch is run for must be tracked here. `shown` is how
/// its identity is shown.
pub fn batch_repository(registry: &RepoRegistry, identity: &RepoIdentity, shown: &str) -> (r: Result<usize, String>)
    ensures
        match r {
            Ok(at) => at < registry@.repos.len() && repo_at(registry@.repos, identity@) == at,
            Err(e) => repo_at(registry@.repos, identity@) == registry@.repos.len() && e@ == "repo not tracked locally: "@
                + shown@,
        },
{
    match registry.position(identity) {
        Some(at) => Ok(at),
        None => Err(concat2("repo not tracked locally: ", shown)),
    }
}

} // verus!
