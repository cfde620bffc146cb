//! What is done once it is decided how a handoff, a brief or a completion goes
//! on: the effects, in their order, each taken only after the one before.
use vstd::prelude::*;

use crate::crew::{crew_handoff_message, handoff_text, CompleteStep, CrewDuty, HandoffStep, ResolvedCrewContext};
use crate::messages::ResumeStep;
use crate::text::{opt, opt_clone};

verus! {

/// What a crew member says as it finishes.
#[derive(Debug, PartialEq, Eq)]
pub struct Completion {
    pub message: Option<String>,
    pub disposition: Option<String>,
    pub decision_ledger_ref: Option<String>,
}

/// What a crew member says, by value.
pub struct CompletionView {
    pub message: Option<Seq<char>>,
    pub disposition: Option<Seq<char>>,
    pub decision_ledger_ref: Option<Seq<char>>,
}

impl View for Completion {
    type V = CompletionView;

    open spec fn view(&self) -> CompletionView {
        CompletionView {
            message: opt(self.message),
            disposition: opt(self.disposition),
            decision_ledger_ref: opt(self.decision_ledger_ref),
        }
    }
}

impl Completion {
    fn copy(&self) -> (r: Self)
        ensures
            r@ == self@,
    {
        Completion {
            message: opt_clone(&self.message),
            disposition: opt_clone(&self.disposition),
            decision_ledger_ref: opt_clone(&self.decision_ledger_ref),
        }
    }
}

/// What is noted on a convoy of the work of its crew.
#[derive(Debug, PartialEq, Eq)]
#[allow(inconsistent_fields)]
pub enum WorkNote {
    HandedOff { vessel: String, from: String, to: String, message: String },
    Completed { vessel: String, role: String, said: Completion },
    /// Its work is done, and the brief that waited is its next.
    PendingDelivered { vessel: String, role: String, content: String, said: Completion },
    Resumed { vessel: String, role: String, prompt: String },
    BriefQueued { vessel: String, role: String, content: String },
}

/// What is noted, by value.
pub enum NoteView {
    HandedOff { vessel: Seq<char>, from: Seq<char>, to: Seq<char>, message: Seq<char> },
    Completed { vessel: Seq<char>, role: Seq<char>, said: CompletionView },
    PendingDelivered { vessel: Seq<char>, role: Seq<char>, content: Seq<char>, said: CompletionView },
    Resumed { vessel: Seq<char>, role: Seq<char>, prompt: Seq<char> },
    BriefQueued { vessel: Seq<char>, role: Seq<char>, content: Seq<char> },
}

impl View for WorkNote {
    type V = NoteView;

    open spec fn view(&self) -> NoteView {
        match *self {
            WorkNote::HandedOff { vessel, from, to, message } => NoteView::HandedOff {
                vessel: vessel@,
                from: from@,
                to: to@,
                message: message@,
            },
            WorkNote::Completed { vessel, role, said } => NoteView::Completed { vessel: vessel@, role: role@, said: said@ },
            WorkNote::PendingDelivered { vessel, role, content, said } => NoteView::PendingDelivered {
                vessel: vessel@,
                role: role@,
                content: content@,
                said: said@,
            },
            WorkNote::Resumed { vessel, role, prompt } => NoteView::Resumed { vessel: vessel@, role: role@, prompt: prompt@ },
            WorkNote::BriefQueued { vessel, role, content } => NoteView::BriefQueued {
                vessel: vessel@,
                role: role@,
                content: content@,
            },
        }
    }
}

/// One thing that is done.
#[derive(Debug, PartialEq, Eq)]
#[allow(inconsistent_fields)]
pub enum CrewEffect {
    /// Leave a message with a session.
    Queue { session: String, text: String },
    /// Start a session again.
    Restart { session: String },
    /// Start a session beside another.
    Start { anchor: String },
    Note { note: WorkNote },
    /// Forget the completion that was noted on a session.
    ClearCompletion { session: String },
}

/// One thing that is done, by value.
pub enum EffectView {
    Queue { session: Seq<char>, text: Seq<char> },
    Restart { session: Seq<char> },
    Start { anchor: Seq<char> },
    Note { note: NoteView },
    ClearCompletion { session: Seq<char> },
}

impl View for CrewEffect {
    type V = EffectView;

    open spec fn view(&self) -> EffectView {
        match *self {
            CrewEffect::Queue { session, text } => EffectView::Queue { session: session@, text: text@ },
            CrewEffect::Restart { session } => EffectView::Restart { session: session@ },
            CrewEffect::Start { anchor } => EffectView::Start { anchor: anchor@ },
            CrewEffect::Note { note } => EffectView::Note { note: note@ },
            CrewEffect::ClearCompletion { session } => EffectView::ClearCompletion { session: session@ },
        }
    }
}

/// What is done, by value.
pub open spec fn effect_views(effects: Seq<CrewEffect>) -> Seq<EffectView> {
    effects.map_values(|e: CrewEffect| e@)
}

/// A message is left with a session, which is started again where it stopped.
pub open spec fn queued(session: Seq<char>, text: Seq<char>, restart: bool) -> Seq<EffectView> {
    let left = seq![EffectView::Queue { session, text }];
    if restart {
        left.push(EffectView::Restart { session })
    } else {
        left
    }
}

fn queue(session: &str, text: String, restart: bool) -> (r: Vec<CrewEffect>)
    ensures
        effect_views(r@) == queued(session@, text@, restart),
{
    let mut r: Vec<CrewEffect> = Vec::new();
    r.push(CrewEffect::Queue { session: session.to_owned(), text });
    if restart {
        r.push(CrewEffect::Restart { session: session.to_owned() });
    }
    assert(effect_views(r@) =~= queued(session@, text@, restart));
    r
}

fn then_note(effects: Vec<CrewEffect>, note: WorkNote) -> (r: Vec<CrewEffect>)
    ensures
        effect_views(r@) == effect_views(effects@).push(EffectView::Note { note: note@ }),
{
    let mut r = effects;
    r.push(CrewEffect::Note { note });
    assert(effect_views(r@) =~= effect_views(effects@).push(EffectView::Note { note: note@ }));
    r
}

/// What is done to hand work over, or why it cannot be.
pub open spec fn handoff_effects(
    context: ResolvedCrewContext,
    target: Seq<char>,
    message: Seq<char>,
    session: Seq<char>,
    step: HandoffStep,
) -> Result<Seq<EffectView>, Seq<char>> {
    let note = EffectView::Note {
        note: NoteView::HandedOff { vessel: context.vessel@, from: context.caller_role@, to: target, message },
    };
    match step {
        HandoffStep::Fail { message } => Err(message@),
        HandoffStep::Queue { restart } => Ok(queued(session, handoff_text(context, message), restart).push(note)),
        HandoffStep::Launch { anchor } => Ok(seq![EffectView::Start { anchor: anchor@ }, note]),
    }
}

/// What is done to hand work over; `session` is the name of the target's.
pub fn handoff_plan(
    context: &ResolvedCrewContext,
    target: &str,
    message: &str,
    session: &str,
    step: &HandoffStep,
) -> (r: Result<Vec<CrewEffect>, String>)
    ensures
        match r {
            Ok(effects) => handoff_effects(*context, target@, message@, session@, *step) == Ok::<Seq<EffectView>, Seq<char>>(
                effect_views(effects@),
            ),
            Err(e) => handoff_effects(*context, target@, message@, session@, *step) == Err::<Seq<EffectView>, Seq<char>>(e@),
        },
{
    let effects = match step {
        HandoffStep::Fail { message } => {
            return Err(message.clone());
        },
        HandoffStep::Queue { restart } => queue(session, crew_handoff_message(context, message), *restart),
        HandoffStep::Launch { anchor } => {
            let mut r: Vec<CrewEffect> = Vec::new();
            r.push(CrewEffect::Start { anchor: anchor.clone() });
            assert(effect_views(r@) =~= seq![EffectView::Start { anchor: anchor@ }]);
            r
        },
    };
    let note = WorkNote::HandedOff {
        vessel: context.vessel.clone(),
        from: context.caller_role.clone(),
        to: target.to_owned(),
        message: message.to_owned(),
    };
    let ghost noted = EffectView::Note { note: note@ };
    let r = then_note(effects, note);
    proof {
        if let HandoffStep::Launch { anchor } = step {
            assert(effect_views(r@) =~= seq![EffectView::Start { anchor: anchor@ }, noted]);
        }
    }
    Ok(r)
}

/// What is done to brief a crew member, or why it cannot be.
pub open spec fn resume_effects(target: CrewDuty, prompt: Seq<char>, step: ResumeStep) -> Result<Seq<EffectView>, Seq<char>> {
    match step {
        ResumeStep::Fail { message } => Err(message@),
        ResumeStep::Queue { displaced: _ } => Ok(
            seq![
                EffectView::Note {
                    note: NoteView::BriefQueued { vessel: target.vessel@, role: target.role@, content: prompt },
                },
            ],
        ),
        ResumeStep::Deliver { session_name, restart, displaced: _ } => Ok(
            queued(session_name@, prompt, restart).push(
                EffectView::Note { note: NoteView::Resumed { vessel: target.vessel@, role: target.role@, prompt } },
            ),
        ),
    }
}

/// What is done to brief a crew member.
pub fn resume_plan(target: &CrewDuty, prompt: &str, step: &ResumeStep) -> (r: Result<Vec<CrewEffect>, String>)
    ensures
        match r {
            Ok(effects) => resume_effects(*target, prompt@, *step) == Ok::<Seq<EffectView>, Seq<char>>(
                effect_views(effects@),
            ),
            Err(e) => resume_effects(*target, prompt@, *step) == Err::<Seq<EffectView>, Seq<char>>(e@),
        },
{
    match step {
        ResumeStep::Fail { message } => Err(message.clone()),
        ResumeStep::Queue { .. } => {
            let note = WorkNote::BriefQueued {
                vessel: target.vessel.clone(),
                role: target.role.clone(),
                content: prompt.to_owned(),
            };
            let ghost noted = EffectView::Note { note: note@ };
            let r = then_note(Vec::new(), note);
            assert(effect_views(r@) =~= seq![noted]);
            Ok(r)
        },
        ResumeStep::Deliver { session_name, restart, .. } => {
            let left = queue(session_name.as_str(), prompt.to_owned(), *restart);
            let note = WorkNote::Resumed {
                vessel: target.vessel.clone(),
                role: target.role.clone(),
                prompt: prompt.to_owned(),
            };
            Ok(then_note(left, note))
        },
    }
}

/// What is done to finish the work of a crew member, or why it cannot be.
pub open spec fn completion_effects(
    context: ResolvedCrewContext,
    said: CompletionView,
    step: CompleteStep,
) -> Result<Seq<EffectView>, Seq<char>> {
    match step {
        CompleteStep::Fail { message } => Err(message@),
        CompleteStep::DeliverPending { session_name, content } => Ok(
            seq![
                EffectView::Queue { session: session_name@, text: content@ },
                EffectView::Note {
                    note: NoteView::PendingDelivered {
                        vessel: context.vessel@,
                        role: context.caller_role@,
                        content: content@,
                        said,
                    },
                },
                EffectView::ClearCompletion { session: session_name@ },
            ],
        ),
        CompleteStep::MarkCompleted { clear_session } => {
            let noted = seq![
                EffectView::Note {
                    note: NoteView::Completed { vessel: context.vessel@, role: context.caller_role@, said },
                },
            ];
            Ok(
                match clear_session {
                    Some(session) => noted.push(EffectView::ClearCompletion { session: session@ }),
                    None => noted,
                },
            )
        },
    }
}

/// What is done to finish the work of a crew member.
pub fn completion_plan(context: &ResolvedCrewContext, said: &Completion, step: &CompleteStep) -> (r: Result<Vec<CrewEffect>, String>)
    ensures
        match r {
            Ok(effects) => completion_effects(*context, said@, *step) == Ok::<Seq<EffectView>, Seq<char>>(
                effect_views(effects@),
            ),
            Err(e) => completion_effects(*context, said@, *step) == Err::<Seq<EffectView>, Seq<char>>(e@),
        },
{
    let (vessel, role) = (context.vessel.clone(), context.caller_role.clone());
    match step {
        CompleteStep::Fail { message } => Err(message.clone()),
        CompleteStep::DeliverPending { session_name, content } => {
            let left = queue(session_name.as_str(), content.clone(), false);
            let note = WorkNote::PendingDelivered { vessel, role, content: content.clone(), said: said.copy() };
            let ghost noted = EffectView::Note { note: note@ };
            let mut r = then_note(left, note);
            let ghost before = effect_views(r@);
            assert(before =~= seq![EffectView::Queue { session: session_name@, text: content@ }, noted]);
            r.push(CrewEffect::ClearCompletion { session: session_name.clone() });
            assert(effect_views(r@) =~= before.push(EffectView::ClearCompletion { session: session_name@ }));
            assert(effect_views(r@) =~= seq![
                EffectView::Queue { session: session_name@, text: content@ },
                noted,
                EffectView::ClearCompletion { session: session_name@ },
            ]);
            Ok(r)
        },
        CompleteStep::MarkCompleted { clear_session } => {
            let note = WorkNote::Completed { vessel, role, said: said.copy() };
            let ghost noted = EffectView::Note { note: note@ };
            let mut r = then_note(Vec::new(), note);
            assert(effect_views(r@) =~= seq![noted]);
            match clear_session {
                Some(session) => {
                    r.push(CrewEffect::ClearCompletion { session: session.clone() });
                    assert(effect_views(r@) =~= seq![noted].push(EffectView::ClearCompletion { session: session@ }));
                },
                None => {},
            }
            Ok(r)
        },
    }
}

/// How a plan goes on.
#[derive(Debug, PartialEq, Eq)]
pub enum PlanTurn {
    /// Take the effect at this place.
    Take { at: usize },
    Fail { message: String },
    Done,
}

/// Where the first outcome stands that is an error, or the number of outcomes.
pub open spec fn first_failure(outcomes: Seq<Result<(), String>>) -> int
    decreases outcomes.len(),
{
    if outcomes.len() == 0 || outcomes[0] is Err {
        0
    } else {
        1 + first_failure(outcomes.drop_first())
    }
}

/// `turn` is how a plan of so many effects goes on.
pub open spec fn goes_on(turn: PlanTurn, effects: int, outcomes: Seq<Result<(), String>>) -> bool {
    let at = first_failure(outcomes);
    if at < outcomes.len() {
        turn matches PlanTurn::Fail { message } && outcomes[at] == Err::<(), String>(message)
    } else if outcomes.len() < effects {
        turn == (PlanTurn::Take { at: outcomes.len() as usize })
    } else {
        turn is Done
    }
}

/// How a plan goes on: one effect after the other, until one fails.
pub fn next_effect(effects: &Vec<CrewEffect>, outcomes: &Vec<Result<(), String>>) -> (turn: PlanTurn)
    ensures
        goes_on(turn, effects@.len() as int, outcomes@),
{
    let mut i: usize = 0;
    assert(outcomes@.skip(0) =~= outcomes@);
    while i < outcomes.len()
        invariant
            i <= outcomes@.len(),
            first_failure(outcomes@) == i + first_failure(outcomes@.skip(i as int)),
        decreases outcomes.len() - i,
    {
        assert(outcomes@.skip(i as int)[0] == outcomes@[i as int]);
        assert(outcomes@.skip(i as int).drop_first() =~= outcomes@.skip(i + 1));
        match &outcomes[i] {
            Err(e) => {
                return PlanTurn::Fail { message: e.clone() };
            },
            Ok(()) => {},
        }
        i = i + 1;
    }
    if outcomes.len() < effects.len() {
        PlanTurn::Take { at: outcomes.len() }
    } else {
        PlanTurn::Done
    }
}

/// A handoff is noted only once it has reached its target: the note is the last
/// thing that is done, and is not done where anything before it failed.
pub proof fn law_handoffs_are_noted_last(
    context: ResolvedCrewContext,
    target: Seq<char>,
    message: Seq<char>,
    session: Seq<char>,
    step: HandoffStep,
    turn: PlanTurn,
    outcomes: Seq<Result<(), String>>,
)
    requires
        handoff_effects(context, target, message, session, step) matches Ok(effects) && goes_on(
            turn,
            effects.len() as int,
            outcomes,
        ) && outcomes.len() < effects.len() <= usize::MAX,
        turn matches PlanTurn::Take { at } && handoff_effects(context, target, message, session, step)->Ok_0[at as int] is Note,
    ensures
        outcomes.len() > 0,
        forall|i: int| 0 <= i < outcomes.len() ==> #[trigger] outcomes[i] is Ok,
        turn matches PlanTurn::Take { at } && at == handoff_effects(context, target, message, session, step)->Ok_0.len() - 1,
{
    lemma_first_failure(outcomes);
}

/// What is done stops at the first failure.
pub proof fn law_plans_stop_at_a_failure(turn: PlanTurn, effects: int, outcomes: Seq<Result<(), String>>, i: int)
    requires
        goes_on(turn, effects, outcomes),
        0 <= i < outcomes.len(),
        outcomes[i] is Err,
    ensures
        turn is Fail,
{
    lemma_first_failure(outcomes);
}

proof fn lemma_first_failure(outcomes: Seq<Result<(), String>>)
    ensures
        0 <= first_failure(outcomes) <= outcomes.len(),
        forall|i: int| 0 <= i < first_failure(outcomes) ==> #[trigger] outcomes[i] is Ok,
        first_failure(outcomes) < outcomes.len() ==> outcomes[first_failure(outcomes)] is Err,
    decreases outcomes.len(),
{
    if outcomes.len() > 0 && outcomes[0] is Ok {
        let rest = outcomes.drop_first();
        lemma_first_failure(rest);
        assert forall|i: int| 0 <= i < first_failure(outcomes) implies #[trigger] outcomes[i] is Ok by {
            if i > 0 {
                assert(outcomes[i] == rest[i - 1]);
            }
        }
    }
}

} // verus!
