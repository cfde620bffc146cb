//! Admitting a convoy: what a start asks for, what has to be found out, in
//! which order, and what it comes to.
use vstd::prelude::*;

use crate::model::ConvoyPhase;
use crate::naming::{project_reference, resolve_project_ref, ViewAddressReading};
use crate::text::{blank, concat3, concat4, concat6, opt, opt_clone, opt_eq, str_blank, str_eq};
use crate::time::{elapsed, Timestamp};
use crate::workflow::AgentOverride;

verus! {

/// How an issue is asked for.
#[derive(Debug, PartialEq, Eq)]
#[allow(inconsistent_fields)]
pub enum IssueSelector {
    Id { id: String },
    Reference { service: String, scope: String, id: String },
}

pub enum SelectorView {
    Id(Seq<char>),
    Reference(Seq<char>, Seq<char>, Seq<char>),
}

impl View for IssueSelector {
    type V = SelectorView;

    open spec fn view(&self) -> SelectorView {
        match *self {
            IssueSelector::Id { id } => SelectorView::Id(id@),
            IssueSelector::Reference { service, scope, id } => SelectorView::Reference(service@, scope@, id@),
        }
    }
}

impl IssueSelector {
    pub fn same(&self, other: &IssueSelector) -> (r: bool)
        ensures
            r == (self@ == other@),
    {
        match (self, other) {
            (IssueSelector::Id { id: a }, IssueSelector::Id { id: b }) => str_eq(a.as_str(), b.as_str()),
            (
                IssueSelector::Reference { service: s, scope: c, id: a },
                IssueSelector::Reference { service: t, scope: d, id: b },
            ) => str_eq(s.as_str(), t.as_str()) && str_eq(c.as_str(), d.as_str()) && str_eq(a.as_str(), b.as_str()),
            _ => false,
        }
    }

    pub fn copy(&self) -> (r: Self)
        ensures
            r == *self,
    {
        match self {
            IssueSelector::Id { id } => IssueSelector::Id { id: id.clone() },
            IssueSelector::Reference { service, scope, id } => IssueSelector::Reference {
                service: service.clone(),
                scope: scope.clone(),
                id: id.clone(),
            },
        }
    }
}

/// What a start asks for.
#[derive(Debug, PartialEq, Eq)]
pub struct ConvoyStartIntent {
    pub namespace: Option<String>,
    pub project_ref: String,
    pub name: Option<String>,
    pub branch: Option<String>,
    pub workflow_ref: Option<String>,
    pub inputs: Vec<(String, String)>,
    pub instruction: Option<String>,
    pub placement_policy: Option<String>,
    pub change_request: Option<String>,
    pub issues: Vec<IssueSelector>,
    /// Which agents are to serve which capabilities.
    pub agent_overrides: Vec<AgentOverride>,
}

/// The views of selectors.
pub open spec fn selector_views(list: Seq<IssueSelector>) -> Seq<SelectorView> {
    Seq::new(list.len(), |i: int| list[i]@)
}

/// The views of inputs.
pub open spec fn input_views(list: Seq<(String, String)>) -> Seq<(Seq<char>, Seq<char>)> {
    Seq::new(list.len(), |i: int| (list[i].0@, list[i].1@))
}

/// What a start is about: two starts about the same thing are the same start.
#[derive(Debug, PartialEq, Eq)]
#[allow(inconsistent_fields)]
pub enum ConvoyStartSubject {
    ChangeRequest { id: String },
    Issues { selectors: Vec<IssueSelector> },
    Name { name: String },
    Anonymous {
        branch: Option<String>,
        workflow_ref: Option<String>,
        inputs: Vec<(String, String)>,
        instruction: Option<String>,
        placement_policy: Option<String>,
    },
}

#[derive(Debug, PartialEq, Eq)]
pub struct ConvoyStartKey {
    pub namespace: String,
    pub project_ref: String,
    pub subject: ConvoyStartSubject,
}

pub enum SubjectView {
    ChangeRequest(Seq<char>),
    Issues(Seq<SelectorView>),
    Name(Seq<char>),
    Anonymous(
        Option<Seq<char>>,
        Option<Seq<char>>,
        Seq<(Seq<char>, Seq<char>)>,
        Option<Seq<char>>,
        Option<Seq<char>>,
    ),
}

impl View for ConvoyStartSubject {
    type V = SubjectView;

    open spec fn view(&self) -> SubjectView {
        match *self {
            ConvoyStartSubject::ChangeRequest { id } => SubjectView::ChangeRequest(id@),
            ConvoyStartSubject::Issues { selectors } => SubjectView::Issues(selector_views(selectors@)),
            ConvoyStartSubject::Name { name } => SubjectView::Name(name@),
            ConvoyStartSubject::Anonymous { branch, workflow_ref, inputs, instruction, placement_policy } => SubjectView::Anonymous(
                opt(branch),
                opt(workflow_ref),
                input_views(inputs@),
                opt(instruction),
                opt(placement_policy),
            ),
        }
    }
}

impl View for ConvoyStartKey {
    type V = (Seq<char>, Seq<char>, SubjectView);

    open spec fn view(&self) -> (Seq<char>, Seq<char>, SubjectView) {
        (self.namespace@, self.project_ref@, self.subject@)
    }
}

/// What a start is about: its change request, else its issues, else its name,
/// else everything it says.
pub open spec fn subject_of(intent: ConvoyStartIntent) -> SubjectView {
    match intent.change_request {
        Some(id) => SubjectView::ChangeRequest(id@),
        None => if intent.issues@.len() > 0 {
            SubjectView::Issues(selector_views(intent.issues@))
        } else {
            match intent.name {
                Some(name) => SubjectView::Name(name@),
                None => SubjectView::Anonymous(
                    opt(intent.branch),
                    opt(intent.workflow_ref),
                    input_views(intent.inputs@),
                    opt(intent.instruction),
                    opt(intent.placement_policy),
                ),
            }
        },
    }
}

fn copy_selectors(list: &Vec<IssueSelector>) -> (r: Vec<IssueSelector>)
    ensures
        r@ == list@,
{
    let mut r: Vec<IssueSelector> = Vec::new();
    let mut i: usize = 0;
    while i < list.len()
        invariant
            i <= list@.len(),
            r@ == list@.take(i as int),
        decreases list.len() - i,
    {
        r.push(list[i].copy());
        assert(r@ =~= list@.take(i + 1));
        i = i + 1;
    }
    assert(list@.take(list@.len() as int) =~= list@);
    r
}

pub(crate) fn copy_inputs(list: &Vec<(String, String)>) -> (r: Vec<(String, String)>)
    ensures
        r@ == list@,
{
    let mut r: Vec<(String, String)> = Vec::new();
    let mut i: usize = 0;
    while i < list.len()
        invariant
            i <= list@.len(),
            r@ == list@.take(i as int),
        decreases list.len() - i,
    {
        r.push((list[i].0.clone(), list[i].1.clone()));
        assert(r@ =~= list@.take(i + 1));
        i = i + 1;
    }
    assert(list@.take(list@.len() as int) =~= list@);
    r
}

fn same_selectors(a: &Vec<IssueSelector>, b: &Vec<IssueSelector>) -> (r: bool)
    ensures
        r == (selector_views(a@) == selector_views(b@)),
{
    if a.len() != b.len() {
        assert(selector_views(a@).len() != selector_views(b@).len());
        return false;
    }
    let mut i: usize = 0;
    while i < a.len()
        invariant
            i <= a@.len(),
            a@.len() == b@.len(),
            forall|k: int| 0 <= k < i ==> (#[trigger] a@[k])@ == b@[k]@,
        decreases a.len() - i,
    {
        if !a[i].same(&b[i]) {
            assert(selector_views(a@)[i as int] != selector_views(b@)[i as int]);
            return false;
        }
        i = i + 1;
    }
    assert(selector_views(a@) =~= selector_views(b@));
    true
}

fn same_inputs(a: &Vec<(String, String)>, b: &Vec<(String, String)>) -> (r: bool)
    ensures
        r == (input_views(a@) == input_views(b@)),
{
    if a.len() != b.len() {
        assert(input_views(a@).len() != input_views(b@).len());
        return false;
    }
    let mut i: usize = 0;
    while i < a.len()
        invariant
            i <= a@.len(),
            a@.len() == b@.len(),
            forall|k: int| 0 <= k < i ==> (#[trigger] a@[k]).0@ == b@[k].0@ && a@[k].1@ == b@[k].1@,
        decreases a.len() - i,
    {
        if !(str_eq(a[i].0.as_str(), b[i].0.as_str()) && str_eq(a[i].1.as_str(), b[i].1.as_str())) {
            assert(input_views(a@)[i as int] != input_views(b@)[i as int]);
            return false;
        }
        i = i + 1;
    }
    assert(input_views(a@) =~= input_views(b@));
    true
}

impl ConvoyStartKey {
    pub fn new(namespace: String, intent: &ConvoyStartIntent) -> (r: Self)
        ensures
            r@ == (namespace@, intent.project_ref@, subject_of(*intent)),
    {
        let subject = match &intent.change_request {
            Some(id) => ConvoyStartSubject::ChangeRequest { id: id.clone() },
            None => {
                if intent.issues.len() > 0 {
                    ConvoyStartSubject::Issues { selectors: copy_selectors(&intent.issues) }
                } else {
                    match &intent.name {
                        Some(name) => ConvoyStartSubject::Name { name: name.clone() },
                        None => ConvoyStartSubject::Anonymous {
                            branch: opt_clone(&intent.branch),
                            workflow_ref: opt_clone(&intent.workflow_ref),
                            inputs: copy_inputs(&intent.inputs),
                            instruction: opt_clone(&intent.instruction),
                            placement_policy: opt_clone(&intent.placement_policy),
                        },
                    }
                }
            },
        };
        ConvoyStartKey { namespace, project_ref: intent.project_ref.clone(), subject }
    }

    pub fn same(&self, other: &ConvoyStartKey) -> (r: bool)
        ensures
            r == (self@ == other@),
    {
        if !str_eq(self.namespace.as_str(), other.namespace.as_str()) || !str_eq(
            self.project_ref.as_str(),
            other.project_ref.as_str(),
        ) {
            return false;
        }
        match (&self.subject, &other.subject) {
            (ConvoyStartSubject::ChangeRequest { id: a }, ConvoyStartSubject::ChangeRequest { id: b }) => str_eq(
                a.as_str(),
                b.as_str(),
            ),
            (ConvoyStartSubject::Issues { selectors: a }, ConvoyStartSubject::Issues { selectors: b }) => same_selectors(a, b),
            (ConvoyStartSubject::Name { name: a }, ConvoyStartSubject::Name { name: b }) => str_eq(a.as_str(), b.as_str()),
            (
                ConvoyStartSubject::Anonymous {
                    branch: a1,
                    workflow_ref: a2,
                    inputs: a3,
                    instruction: a4,
                    placement_policy: a5,
                },
                ConvoyStartSubject::Anonymous {
                    branch: b1,
                    workflow_ref: b2,
                    inputs: b3,
                    instruction: b4,
                    placement_policy: b5,
                },
            ) => opt_eq(a1, b1) && opt_eq(a2, b2) && same_inputs(a3, b3) && opt_eq(a4, b4) && opt_eq(a5, b5),
            _ => false,
        }
    }
}

/// The starts that are on their way.
#[derive(Debug)]
pub struct PendingStarts {
    keys: Vec<ConvoyStartKey>,
}

/// The views of keys.
pub open spec fn key_views(keys: Seq<ConvoyStartKey>) -> Seq<(Seq<char>, Seq<char>, SubjectView)> {
    Seq::new(keys.len(), |i: int| keys[i]@)
}

impl PendingStarts {
    /// What is being started.
    pub closed spec fn pending(self) -> Set<(Seq<char>, Seq<char>, SubjectView)> {
        key_views(self.keys@).to_set()
    }

    pub fn new() -> (r: Self)
        ensures
            r.pending() == Set::<(Seq<char>, Seq<char>, SubjectView)>::empty(),
    {
        let r = PendingStarts { keys: Vec::new() };
        assert(r.pending() =~= Set::<(Seq<char>, Seq<char>, SubjectView)>::empty());
        r
    }

    /// Notes a start; the same start cannot be on its way twice.
    pub fn begin(&mut self, key: ConvoyStartKey) -> (r: Result<(), String>)
        ensures
            match r {
                Ok(()) => !old(self).pending().contains(key@) && final(self).pending() == old(self).pending().insert(key@),
                Err(e) => old(self).pending().contains(key@) && final(self).pending() == old(self).pending() && e@
                    == "convoy start for project "@ + key.project_ref@ + " is already in progress"@,
            },
    {
        let mut i: usize = 0;
        while i < self.keys.len()
            invariant
                i <= self.keys@.len(),
                *self == *old(self),
                forall|k: int| 0 <= k < i ==> (#[trigger] self.keys@[k])@ != key@,
            decreases self.keys.len() - i,
        {
            if self.keys[i].same(&key) {
                assert(key_views(self.keys@)[i as int] == key@);
                return Err(concat3("convoy start for project ", key.project_ref.as_str(), " is already in progress"));
            }
            i = i + 1;
        }
        let ghost before = key_views(self.keys@);
        assert(!before.contains(key@));
        self.keys.push(key);
        proof {
            assert(key_views(self.keys@) =~= before.push(key@));
            before.lemma_push_to_set_commute(key@);
        }
        Ok(())
    }

    /// Forgets a start that ended.
    pub fn end(&mut self, key: &ConvoyStartKey)
        ensures
            final(self).pending() == old(self).pending().remove(key@),
    {
        let mut left: Vec<ConvoyStartKey> = Vec::new();
        let mut rest: Vec<ConvoyStartKey> = Vec::new();
        std::mem::swap(&mut rest, &mut self.keys);
        let ghost mut seen = Seq::<(Seq<char>, Seq<char>, SubjectView)>::empty();
        let ghost all = key_views(rest@);
        assert(key_views(left@) =~= Seq::empty());
        assert(key_views(left@).to_set() =~= seen.to_set().remove(key@));
        while rest.len() > 0
            invariant
                all == key_views(rest@) + seen,
                key_views(left@).to_set() == seen.to_set().remove(key@),
            decreases rest.len(),
        {
            let ghost were = rest@;
            let ghost left_were = key_views(left@);
            let ghost seen_were = seen;
            match rest.pop() {
                Some(k) => {
                    proof {
                        seen = seq![k@] + seen;
                        assert(key_views(were) =~= key_views(rest@).push(k@));
                        assert(all =~= key_views(rest@) + seen);
                        assert forall|x: (Seq<char>, Seq<char>, SubjectView)|
                            seen.to_set().contains(x) == seen_were.to_set().insert(k@).contains(x) by {
                            if seen_were.contains(x) {
                                let j = choose|j: int| 0 <= j < seen_were.len() && seen_were[j] == x;
                                assert(seen[j + 1] == x);
                            }
                            assert(seen[0] == k@);
                            if seen.contains(x) && x != k@ {
                                let j = choose|j: int| 0 <= j < seen.len() && seen[j] == x;
                                assert(seen_were[j - 1] == x);
                            }
                        }
                        assert(seen.to_set() =~= seen_were.to_set().insert(k@));
                    }
                    if !k.same(key) {
                        let ghost kv = k@;
                        left.push(k);
                        proof {
                            assert(key_views(left@) =~= left_were.push(kv));
                            left_were.lemma_push_to_set_commute(kv);
                            assert(key_views(left@).to_set() =~= seen.to_set().remove(key@));
                        }
                    } else {
                        assert(key_views(left@).to_set() =~= seen.to_set().remove(key@));
                    }
                },
                None => {},
            }
        }
        assert(all =~= seen);
        self.keys = left;
    }
}

/// `r` is a start with its project resolved.
pub open spec fn normalized_intent(r: ConvoyStartIntent, intent: ConvoyStartIntent, namespace: Seq<char>, project: Seq<char>) -> bool {
    &&& opt(r.namespace) == Some(namespace)
    &&& r.project_ref@ == project
    &&& r.name == intent.name
    &&& r.branch == intent.branch
    &&& r.workflow_ref == intent.workflow_ref
    &&& r.inputs@ == intent.inputs@
    &&& r.instruction == intent.instruction
    &&& r.placement_policy == intent.placement_policy
    &&& r.change_request == intent.change_request
    &&& r.issues@ == intent.issues@
    &&& r.agent_overrides@ == intent.agent_overrides@
}

/// A start with its project and namespace resolved.
pub fn normalize_convoy_start_intent(
    default_namespace: &str,
    intent: ConvoyStartIntent,
    scheme_prefix: &str,
    reading: &ViewAddressReading,
) -> (r: Result<(String, ConvoyStartIntent), String>)
    ensures
        match project_reference(default_namespace@, intent.project_ref@, scheme_prefix@, *reading) {
            Ok((namespace, project)) => r matches Ok((n, i)) && n@ == namespace && normalized_intent(
                i,
                intent,
                namespace,
                project,
            ),
            Err(e) => r matches Err(text) && text@ == e,
        },
{
    match resolve_project_ref(default_namespace, intent.project_ref.as_str(), scheme_prefix, reading) {
        Err(e) => Err(e),
        Ok((namespace, project_ref)) => {
            let mut intent = intent;
            intent.namespace = Some(namespace.clone());
            intent.project_ref = project_ref;
            Ok((namespace, intent))
        },
    }
}

/// How old an observed issue may be, in nanoseconds.
pub const ISSUE_SNAPSHOT_FRESHNESS: i128 = 300_000_000_000;

/// An issue is fresh where it was observed in the last five minutes, and not
/// in the future.
pub open spec fn fresh_issue(observed_at: Option<Timestamp>, now: Timestamp) -> bool {
    observed_at is Some && 0 <= elapsed(now, observed_at->0) <= ISSUE_SNAPSHOT_FRESHNESS
}

pub fn issue_snapshot_is_fresh(observed_at: &Option<Timestamp>, now: &Timestamp) -> (r: bool)
    ensures
        r == fresh_issue(*observed_at, *now),
{
    match observed_at {
        None => false,
        Some(at) => {
            let age = now.since(at);
            0 <= age && age <= ISSUE_SNAPSHOT_FRESHNESS
        },
    }
}

/// Only a fresh issue is admitted.
pub fn check_issue_snapshot(id: &str, observed_at: &Option<Timestamp>, now: &Timestamp) -> (r: Result<(), String>)
    ensures
        match r {
            Ok(()) => fresh_issue(*observed_at, *now),
            Err(e) => !fresh_issue(*observed_at, *now) && e@ == "issue "@ + id@ + " snapshot is too stale to admit"@,
        },
{
    if issue_snapshot_is_fresh(observed_at, now) {
        Ok(())
    } else {
        Err(concat3("issue ", id, " snapshot is too stale to admit"))
    }
}

/// A piece of work of a convoy that is starting.
#[derive(Debug, PartialEq, Eq)]
pub struct StartingWork {
    pub name: String,
    pub failed: bool,
    pub message: Option<String>,
}

/// A convoy that is starting.
#[derive(Debug, PartialEq, Eq)]
pub struct StartingConvoy {
    pub record_name: String,
    pub role: String,
    pub project_ref: Option<String>,
    /// Its phase, its message and its work, where it has reported them.
    pub phase: Option<ConvoyPhase>,
    pub message: Option<String>,
    pub work: Vec<StartingWork>,
}

/// A message that says something.
pub open spec fn telling(message: Option<String>) -> Option<Seq<char>> {
    match message {
        Some(text) => if blank(text@) {
            None
        } else {
            Some(text@)
        },
        None => None,
    }
}

/// Where the first failed work stands, or the number of pieces.
pub open spec fn first_failed(work: Seq<StartingWork>) -> int
    decreases work.len(),
{
    if work.len() == 0 || work[0].failed {
        0
    } else {
        1 + first_failed(work.drop_first())
    }
}

/// How a convoy is referred to while it starts.
pub open spec fn starting_identity(c: StartingConvoy) -> Seq<char> {
    let role = if c.role@.len() == 0 {
        c.record_name@
    } else {
        c.role@
    };
    match c.project_ref {
        Some(project) => role + "@"@ + project@,
        None => role,
    }
}

/// Why a convoy will not start.
pub open spec fn start_failure(c: StartingConvoy) -> Option<Seq<char>> {
    let identity = starting_identity(c);
    let at = first_failed(c.work@);
    if c.phase is None {
        None
    } else if at < c.work@.len() {
        Some(
            "convoy "@ + identity + " failed while starting work "@ + c.work@[at].name@ + ": "@ + (match telling(
                c.work@[at].message,
            ) {
                Some(text) => text,
                None => "work failed without a message"@,
            }),
        )
    } else if c.phase == Some(ConvoyPhase::Failed) {
        Some(
            match telling(c.message) {
                Some(text) => "convoy "@ + identity + " failed while starting: "@ + text,
                None => "convoy "@ + identity + " failed while starting"@,
            },
        )
    } else if c.phase == Some(ConvoyPhase::Cancelled) {
        Some("convoy "@ + identity + " was cancelled while starting"@)
    } else {
        None
    }
}

fn told(message: &Option<String>) -> (r: Option<String>)
    ensures
        opt(r) == telling(*message),
{
    match message {
        Some(text) => {
            if str_blank(text.as_str()) {
                None
            } else {
                Some(text.clone())
            }
        },
        None => None,
    }
}

pub fn convoy_start_failure(c: &StartingConvoy) -> (r: Option<String>)
    ensures
        opt(r) == start_failure(*c),
{
    let role = if c.role.as_str().is_empty() {
        c.record_name.as_str()
    } else {
        c.role.as_str()
    };
    let identity = match &c.project_ref {
        Some(project) => concat3(role, "@", project.as_str()),
        None => role.to_owned(),
    };
    let phase = match c.phase {
        None => {
            return None;
        },
        Some(phase) => phase,
    };
    let mut i: usize = 0;
    assert(c.work@.skip(0) =~= c.work@);
    while i < c.work.len() && !c.work[i].failed
        invariant
            i <= c.work@.len(),
            first_failed(c.work@) == i + first_failed(c.work@.skip(i as int)),
        decreases c.work.len() - i,
    {
        assert(c.work@.skip(i as int)[0] == c.work@[i as int]);
        assert(c.work@.skip(i as int).drop_first() =~= c.work@.skip(i + 1));
        i = i + 1;
    }
    if i < c.work.len() {
        assert(c.work@.skip(i as int)[0] == c.work@[i as int]);
        let detail = match told(&c.work[i].message) {
            Some(text) => text,
            None => "work failed without a message".to_owned(),
        };
        return Some(
            concat6(
                "convoy ",
                identity.as_str(),
                " failed while starting work ",
                c.work[i].name.as_str(),
                ": ",
                detail.as_str(),
            ),
        );
    }
    match phase {
        ConvoyPhase::Failed => Some(
            match told(&c.message) {
                Some(text) => concat4("convoy ", identity.as_str(), " failed while starting: ", text.as_str()),
                None => concat3("convoy ", identity.as_str(), " failed while starting"),
            },
        ),
        ConvoyPhase::Cancelled => Some(concat3("convoy ", identity.as_str(), " was cancelled while starting")),
        _ => None,
    }
}

} // verus!
