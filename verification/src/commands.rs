//! Commands: who may run one here, what it is about, what it comes to, and
//! which of them can be cancelled.
use vstd::prelude::*;

use crate::crew::CrewCommandContext;
use crate::naming::{checked_project_name, validate_project_name};
use crate::repos::{
    empty_repo_identity, fallback_repo_identity, identity_or_fallback, lookup_of, resolve_repo_for_command,
    resolve_repo_selector, selected_path, RegistryView, RepoIdentity, RepoLookup, RepoNeed, RepoRegistry, RepoSelector,
};
use crate::resources::Json;
use crate::text::{concat2, concat3, concat4, concat5, join, join_strs, opt, opt_clone, str_eq, strs};
use crate::whole_repository::IdentityChange;

verus! {

/// What a command asks for. Only what decides its course is kept here.
#[allow(inconsistent_fields)]
pub enum CommandAction {
    /// Any question but those below; questions change nothing.
    Query,
    QueryExplainConvoy { namespace: Option<String>, name: String },
    QueryCrewList { context: CrewCommandContext },
    ResourceApply,
    ResourceStatusPatch,
    ResourceDelete { replica_origin: Option<String> },
    ResourceWatch { namespace: String, kind: String },
    /// Look at one repository again, or at all of them.
    Refresh { repo: Option<RepoSelector> },
    CrewHandoff { context: CrewCommandContext },
    ConvoyResume { namespace: Option<String>, name: String },
    ConvoyWithdrawPendingBrief { namespace: Option<String>, name: String },
    CrewComplete { context: CrewCommandContext },
    CrewFail { context: CrewCommandContext },
    ConvoyDelete { namespace: Option<String>, name: String },
    ConvoyAbandon { namespace: Option<String>, name: String },
    ConvoyWorkForceComplete { convoy: String },
    ConvoyStart { namespace: Option<String> },
    ConvoyCreate,
    WorkflowTemplateApply,
    ProjectAdd,
    ProjectApply,
    ProjectRegister,
    ProjectRefresh,
    TrackRepoPath { path: String },
    UntrackRepo { repo: RepoSelector },
    Checkout { repo: RepoSelector },
    /// `resolved` is the repository of the checkout that is removed.
    RemoveCheckout { resolved: Result<String, String> },
    /// Anything about the repository it is given in: a change request, an
    /// issue, a session, a workspace or a terminal.
    InContext,
    /// Anything that no repository can be found for.
    Unplaced,
}

/// A command, as it arrives.
pub struct Command {
    /// The node that it is for.
    pub node_id: Option<String>,
    pub description: String,
    pub context_repo: Option<RepoSelector>,
    pub action: CommandAction,
}

/// The node that a command is for.
pub open spec fn command_node(command: Command, local_node: Seq<char>) -> Seq<char> {
    match command.node_id {
        Some(node) => node@,
        None => local_node,
    }
}

/// How a command is carried out.
#[derive(Debug, Clone, Copy, PartialEq, Eq, Structural)]
pub enum CommandMode {
    /// It is a question that came in by the wrong door.
    Misrouted,
    /// It is done before the caller hears of it.
    Inline,
    /// It runs on, and can be cancelled.
    Running,
}

/// How a command is carried out.
pub open spec fn mode_of(action: CommandAction) -> CommandMode {
    match action {
        CommandAction::Query => CommandMode::Misrouted,
        CommandAction::QueryExplainConvoy { .. } => CommandMode::Misrouted,
        CommandAction::QueryCrewList { .. } => CommandMode::Misrouted,
        CommandAction::ResourceWatch { .. } => CommandMode::Running,
        CommandAction::Checkout { .. } => CommandMode::Running,
        CommandAction::RemoveCheckout { .. } => CommandMode::Running,
        CommandAction::InContext => CommandMode::Running,
        CommandAction::Unplaced => CommandMode::Running,
        _ => CommandMode::Inline,
    }
}

pub fn command_mode(action: &CommandAction) -> (r: CommandMode)
    ensures
        r == mode_of(*action),
{
    match action {
        CommandAction::Query => CommandMode::Misrouted,
        CommandAction::QueryExplainConvoy { .. } => CommandMode::Misrouted,
        CommandAction::QueryCrewList { .. } => CommandMode::Misrouted,
        CommandAction::ResourceWatch { .. } => CommandMode::Running,
        CommandAction::Checkout { .. } => CommandMode::Running,
        CommandAction::RemoveCheckout { .. } => CommandMode::Running,
        CommandAction::InContext => CommandMode::Running,
        CommandAction::Unplaced => CommandMode::Running,
        _ => CommandMode::Inline,
    }
}

/// What a command is about, as everyone hears of it.
#[derive(Debug, PartialEq, Eq)]
pub struct CommandContext {
    pub id: u64,
    pub node_id: String,
    pub identity: RepoIdentity,
    pub repo: Option<String>,
    pub description: String,
    pub mode: CommandMode,
    /// Whether it is a path to track, whose identity may change on the way.
    pub tracks_path: bool,
}

/// Which repository a command needs, where it is planned for one.
pub open spec fn need_of(action: CommandAction) -> RepoNeed {
    match action {
        CommandAction::Checkout { .. } => RepoNeed::Named,
        CommandAction::RemoveCheckout { .. } => RepoNeed::ContextOrCheckout,
        CommandAction::InContext => RepoNeed::Context,
        _ => RepoNeed::NoSingle,
    }
}

/// The path of the repository that a command is planned for.
pub open spec fn planned_path(command: Command, v: RegistryView) -> Result<Seq<char>, Seq<char>> {
    match lookup_of(need_of(command.action), command.context_repo is Some) {
        Err(e) => Err(e),
        Ok(RepoLookup::Command) => selected_path(v, command.action->Checkout_repo),
        Ok(RepoLookup::Context) => selected_path(v, command.context_repo->0),
        Ok(RepoLookup::Checkout) => match command.action->RemoveCheckout_resolved {
            Ok(path) => Ok(path@),
            Err(e) => Err(e@),
        },
    }
}

fn plan_path(command: &Command, registry: &RepoRegistry) -> (r: Result<String, String>)
    ensures
        match r {
            Ok(path) => planned_path(*command, registry@) == Ok::<Seq<char>, Seq<char>>(path@),
            Err(e) => planned_path(*command, registry@) == Err::<Seq<char>, Seq<char>>(e@),
        },
{
    let need = match &command.action {
        CommandAction::Checkout { .. } => RepoNeed::Named,
        CommandAction::RemoveCheckout { .. } => RepoNeed::ContextOrCheckout,
        CommandAction::InContext => RepoNeed::Context,
        _ => RepoNeed::NoSingle,
    };
    match resolve_repo_for_command(need, command.context_repo.is_some()) {
        Err(e) => Err(e),
        Ok(RepoLookup::Command) => match &command.action {
            CommandAction::Checkout { repo } => resolve_repo_selector(registry, repo),
            _ => Err("command does not resolve to a single repo".to_owned()),
        },
        Ok(RepoLookup::Context) => match &command.context_repo {
            Some(repo) => resolve_repo_selector(registry, repo),
            None => Err("command requires repo context".to_owned()),
        },
        Ok(RepoLookup::Checkout) => match &command.action {
            CommandAction::RemoveCheckout { resolved } => match resolved {
                Ok(path) => Ok(path.clone()),
                Err(e) => Err(e.clone()),
            },
            _ => Err("command does not resolve to a single repo".to_owned()),
        },
    }
}

/// `c` says of a command that it is about no repository.
pub open spec fn context_free(c: CommandContext, node: Seq<char>, description: Seq<char>) -> bool {
    c.node_id@ == node && c.identity@ == (""@, ""@) && c.repo is None && c.description@ == description
}

/// `c` says of a command that it is about a repository.
pub open spec fn context_at(
    c: CommandContext,
    node: Seq<char>,
    identity: (Seq<char>, Seq<char>),
    path: Seq<char>,
    description: Seq<char>,
) -> bool {
    c.node_id@ == node && c.identity@ == identity && opt(c.repo) == Some(path) && c.description@ == description
}

/// The first of some paths, or an empty one.
pub open spec fn first_path(paths: Seq<Seq<char>>) -> Seq<char> {
    if paths.len() > 0 {
        paths[0]
    } else {
        ""@
    }
}

/// `r` is what a command is about, or why that cannot be said. `paths` are the
/// paths of the tracked repositories, and `detected` is what a path to track
/// was found to be.
pub open spec fn context_of(
    r: Result<CommandContext, String>,
    id: u64,
    command: Command,
    local_node: Seq<char>,
    v: RegistryView,
    paths: Seq<Seq<char>>,
    detected: (Seq<char>, Seq<char>),
) -> bool {
    let d = command.description@;
    let selected = |path: Result<Seq<char>, Seq<char>>, node: Seq<char>, unknown: Seq<char>|
        match path {
            Err(e) => r matches Err(text) && text@ == e,
            Ok(path) => if v.identities.dom().contains(path) {
                r matches Ok(c) && context_at(c, node, v.identities[path], path, d)
            } else {
                r matches Err(text) && text@ == unknown + path
            },
        };
    &&& (r matches Ok(c) ==> c.id == id && c.mode == mode_of(command.action) && c.tracks_path == (command.action is TrackRepoPath))
    &&& match command.action {
        CommandAction::ResourceWatch { namespace, kind } => r matches Ok(c) && context_free(
            c,
            command_node(command, local_node),
            "watch resource "@ + namespace@ + "/"@ + kind@,
        ),
        CommandAction::Refresh { repo: None } => r matches Ok(c) && context_at(
            c,
            local_node,
            identity_or_fallback(v, first_path(paths)),
            first_path(paths),
            d,
        ),
        CommandAction::Refresh { repo: Some(repo) } => selected(selected_path(v, repo), local_node, "repo not found: "@),
        CommandAction::UntrackRepo { repo } => selected(selected_path(v, repo), local_node, "repo not found: "@),
        CommandAction::TrackRepoPath { path } => r matches Ok(c) && context_at(c, local_node, detected, path@, d),
        CommandAction::Checkout { .. } | CommandAction::RemoveCheckout { .. } | CommandAction::InContext
        | CommandAction::Unplaced => selected(
            planned_path(command, v),
            command_node(command, local_node),
            "repo not tracked: "@,
        ),
        _ => r matches Ok(c) && context_free(c, local_node, d),
    }
}

fn about(
    id: u64,
    command: &Command,
    node: &str,
    path: Result<String, String>,
    registry: &RepoRegistry,
    unknown: &str,
) -> (r: Result<CommandContext, String>)
    requires
        !(command.action is TrackRepoPath),
    ensures
        r matches Ok(c) ==> c.id == id && c.mode == mode_of(command.action) && c.tracks_path == (command.action is TrackRepoPath),
        match path {
            Err(e) => r matches Err(text) && text@ == e@,
            Ok(path) => if registry@.identities.dom().contains(path@) {
                r matches Ok(c) && context_at(c, node@, registry@.identities[path@], path@, command.description@)
            } else {
                r matches Err(text) && text@ == unknown@ + path@
            },
        },
{
    match path {
        Err(e) => Err(e),
        Ok(path) => match registry.tracked_repo_identity_for_path(path.as_str()) {
            None => Err(concat2(unknown, path.as_str())),
            Some(identity) => Ok(
                CommandContext {
                    id,
                    node_id: node.to_owned(),
                    identity,
                    repo: Some(path),
                    description: command.description.clone(),
                    mode: command_mode(&command.action),
                    tracks_path: false,
                },
            ),
        },
    }
}

/// What a command is about.
pub fn command_context(
    id: u64,
    command: &Command,
    local_node: &str,
    registry: &RepoRegistry,
    paths: &Vec<String>,
    detected: &RepoIdentity,
) -> (r: Result<CommandContext, String>)
    ensures
        context_of(r, id, *command, local_node@, registry@, strs(paths@), detected@),
{
    assert(strs(paths@).len() == paths@.len());
    let node = match &command.node_id {
        Some(node) => node.as_str(),
        None => local_node,
    };
    match &command.action {
        CommandAction::ResourceWatch { namespace, kind } => Ok(
            CommandContext {
                id,
                node_id: node.to_owned(),
                identity: empty_repo_identity(),
                repo: None,
                description: concat4("watch resource ", namespace.as_str(), "/", kind.as_str()),
                mode: command_mode(&command.action),
                tracks_path: false,
            },
        ),
        CommandAction::Refresh { repo: None } => {
            let path = if paths.len() > 0 {
                assert(strs(paths@)[0] == paths@[0]@);
                paths[0].clone()
            } else {
                "".to_owned()
            };
            let identity = match registry.tracked_repo_identity_for_path(path.as_str()) {
                Some(identity) => identity,
                None => fallback_repo_identity(path.as_str()),
            };
            Ok(
                CommandContext {
                    id,
                    node_id: local_node.to_owned(),
                    identity,
                    repo: Some(path),
                    description: command.description.clone(),
                    mode: command_mode(&command.action),
                    tracks_path: false,
                },
            )
        },
        CommandAction::Refresh { repo: Some(repo) } => {
            let path = resolve_repo_selector(registry, repo);
            about(id, command, local_node, path, registry, "repo not found: ")
        },
        CommandAction::UntrackRepo { repo } => {
            let path = resolve_repo_selector(registry, repo);
            about(id, command, local_node, path, registry, "repo not found: ")
        },
        CommandAction::TrackRepoPath { path } => Ok(
            CommandContext {
                id,
                node_id: local_node.to_owned(),
                identity: detected.copy(),
                repo: Some(path.clone()),
                description: command.description.clone(),
                mode: command_mode(&command.action),
                tracks_path: true,
            },
        ),
        CommandAction::Checkout { .. } | CommandAction::RemoveCheckout { .. } | CommandAction::InContext
        | CommandAction::Unplaced => {
            let path = plan_path(command, registry);
            about(id, command, node, path, registry, "repo not tracked: ")
        },
        _ => Ok(
            CommandContext {
                id,
                node_id: local_node.to_owned(),
                identity: empty_repo_identity(),
                repo: None,
                description: command.description.clone(),
                mode: command_mode(&command.action),
                tracks_path: false,
            },
        ),
    }
}

/// The namespace that a command means, where it may leave it out.
pub open spec fn namespace_of(action: CommandAction, default_namespace: Seq<char>) -> Seq<char> {
    let named = match action {
        CommandAction::ConvoyResume { namespace, .. } => namespace,
        CommandAction::ConvoyWithdrawPendingBrief { namespace, .. } => namespace,
        CommandAction::ConvoyDelete { namespace, .. } => namespace,
        CommandAction::ConvoyAbandon { namespace, .. } => namespace,
        CommandAction::ConvoyStart { namespace } => namespace,
        _ => None,
    };
    match named {
        Some(namespace) => namespace@,
        None => default_namespace,
    }
}

pub fn command_namespace(action: &CommandAction, default_namespace: &str) -> (r: String)
    ensures
        r@ == namespace_of(*action, default_namespace@),
{
    let named = match action {
        CommandAction::ConvoyResume { namespace, .. } => opt_clone(namespace),
        CommandAction::ConvoyWithdrawPendingBrief { namespace, .. } => opt_clone(namespace),
        CommandAction::ConvoyDelete { namespace, .. } => opt_clone(namespace),
        CommandAction::ConvoyAbandon { namespace, .. } => opt_clone(namespace),
        CommandAction::ConvoyStart { namespace } => opt_clone(namespace),
        _ => None,
    };
    match named {
        Some(namespace) => namespace,
        None => default_namespace.to_owned(),
    }
}

/// A record of the store, as it is handed out.
#[derive(Debug, PartialEq, Eq)]
pub struct ResourceJson {
    pub kind: String,
    pub plural: String,
    pub namespace: String,
    pub value: Json,
    pub replica_origin: Option<String>,
}

/// What a command comes to.
#[derive(Debug, PartialEq, Eq)]
#[allow(inconsistent_fields)]
pub enum CommandValue {
    Done,
    Error { message: String },
    ResourceObject { object: ResourceJson },
    ResourceDeleted { object: ResourceJson },
    ResourceAlreadyDeleted { object: ResourceJson },
    Refreshed { repos: Vec<String>, identity_changes: Vec<IdentityChange> },
    ConvoyBriefDelivered { displaced: Option<String> },
    ConvoyBriefQueued { displaced: Option<String> },
    ConvoyBriefWithdrawn { withdrawn: Option<String> },
    ConvoyCreated { name: String },
    /// It runs under this address, and may be attached to.
    ConvoyStarted { name: String, attached: bool },
    WorkflowTemplateApplied { name: String },
    ProjectAdded { name: String },
    ProjectApplied { name: String },
    ProjectRegistered { name: String, members: usize },
    ProjectRefreshed { name: String, members: usize, converged: bool, changes: Vec<String> },
    RepoTracked { path: String, resolved_from: Option<String>, identity_change: Option<IdentityChange> },
    RepoUntracked { path: String },
    /// What a plan came to, as its steps put it.
    Planned { text: String },
}

/// What everyone hears of a command.
#[derive(Debug, PartialEq, Eq)]
#[allow(inconsistent_fields)]
pub enum CommandEvent {
    Started { id: u64, node_id: String, identity: RepoIdentity, repo: Option<String>, description: String },
    Finished { id: u64, node_id: String, identity: RepoIdentity, repo: Option<String>, result: CommandValue },
}

/// `e` says that a command was started.
pub open spec fn announces_start(e: CommandEvent, c: CommandContext) -> bool {
    e matches CommandEvent::Started { id, node_id, identity, repo, description } && id == c.id && node_id@ == c.node_id@
        && identity@ == c.identity@ && opt(repo) == opt(c.repo) && description@ == c.description@
}

/// The identity that a command ends under: a path that was tracked ends under
/// the one it is tracked by now, and everything else under the one it started
/// with.
pub open spec fn ends_under(c: CommandContext, v: RegistryView) -> (Seq<char>, Seq<char>) {
    match c.repo {
        Some(path) => if c.tracks_path && v.identities.dom().contains(path@) {
            v.identities[path@]
        } else {
            c.identity@
        },
        None => c.identity@,
    }
}

/// `result` is what a command comes to: a question is always turned away.
pub open spec fn comes_to(result: CommandValue, c: CommandContext, value: CommandValue) -> bool {
    if c.mode == CommandMode::Misrouted {
        result matches CommandValue::Error { message } && message@ == "query commands should use execute_query, not execute"@
    } else {
        result == value
    }
}

/// `e` says what a command came to.
pub open spec fn announces_end(e: CommandEvent, c: CommandContext, identity_now: (Seq<char>, Seq<char>), value: CommandValue) -> bool {
    e matches CommandEvent::Finished { id, node_id, identity, repo, result } && id == c.id && node_id@ == c.node_id@
        && identity@ == identity_now && opt(repo) == opt(c.repo) && comes_to(result, c, value)
}

/// What is heard at the end of a command is about what was heard at its start:
/// the same number, node and path, and, but for a path to track, the same
/// repository.
pub proof fn law_commands_end_as_they_started(
    start: CommandEvent,
    end: CommandEvent,
    c: CommandContext,
    v: RegistryView,
    value: CommandValue,
)
    requires
        announces_start(start, c),
        announces_end(end, c, ends_under(c, v), value),
    ensures
        start->Started_id == end->Finished_id,
        start->Started_node_id@ == end->Finished_node_id@,
        opt(start->Started_repo) == opt(end->Finished_repo),
        !c.tracks_path ==> start->Started_identity@ == end->Finished_identity@,
{
}

/// A question that is sent as a command is refused, whatever became of it.
pub proof fn law_questions_are_no_commands(
    r: Result<CommandContext, String>,
    id: u64,
    command: Command,
    local_node: Seq<char>,
    v: RegistryView,
    paths: Seq<Seq<char>>,
    detected: (Seq<char>, Seq<char>),
    result: CommandValue,
    value: CommandValue,
)
    requires
        context_of(r, id, command, local_node, v, paths, detected),
        command.action is Query || command.action is QueryExplainConvoy || command.action is QueryCrewList,
        r matches Ok(c) ==> comes_to(result, c, value),
    ensures
        r is Ok,
        result is Error,
{
}

/// The commands that were let in: the number of the next one, and those that
/// are still running and can be cancelled.
#[derive(Debug)]
pub struct CommandLedger {
    next_id: u64,
    active: Vec<u64>,
}

impl CommandLedger {
    /// The number that the next command gets.
    pub closed spec fn next(self) -> u64 {
        self.next_id
    }

    /// The commands that can be cancelled.
    pub closed spec fn running(self) -> Set<u64> {
        self.active@.to_set()
    }

    pub fn new() -> (r: Self)
        ensures
            r.next() == 1,
            r.running() == Set::<u64>::empty(),
    {
        let r = CommandLedger { next_id: 1, active: Vec::new() };
        assert(r.running() =~= Set::<u64>::empty());
        r
    }

    /// Lets a command in, and gives it a number; a command for another node is
    /// refused, unless those may pass.
    pub fn let_in(&mut self, command: &Command, local_node: &str, allow_remote_host: bool) -> (r: Result<u64, String>)
        ensures
            final(self).running() == old(self).running(),
            if !allow_remote_host && command_node(*command, local_node@) != local_node@ {
                &&& r matches Err(e)
                &&& e@ == "remote command routing not implemented yet for node "@ + command_node(*command, local_node@)
                &&& final(self).next() == old(self).next()
            } else {
                &&& r == Ok::<u64, String>(old(self).next())
                &&& final(self).next() == old(self).next().wrapping_add(1)
            },
    {
        let node = match &command.node_id {
            Some(node) => node.as_str(),
            None => local_node,
        };
        if !allow_remote_host && !str_eq(node, local_node) {
            return Err(concat2("remote command routing not implemented yet for node ", node));
        }
        let id: u64 = self.next_id;
        self.next_id = id.wrapping_add(1);
        Ok(id)
    }

    /// Starts a command; one that runs on can be cancelled from now on.
    pub fn start(&mut self, c: &CommandContext) -> (e: CommandEvent)
        ensures
            announces_start(e, *c),
            final(self).next() == old(self).next(),
            final(self).running() == if c.mode == CommandMode::Running {
                old(self).running().insert(c.id)
            } else {
                old(self).running()
            },
    {
        if c.mode == CommandMode::Running {
            let ghost before = self.active@;
            self.active.push(c.id);
            proof {
                assert(self.active@ =~= before.push(c.id));
                assert forall|x: u64| #[trigger] self.active@.to_set().contains(x) == before.to_set().insert(c.id).contains(x) by {
                    if before.contains(x) {
                        let k = choose|k: int| 0 <= k < before.len() && before[k] == x;
                        assert(self.active@[k] == x);
                    }
                    assert(self.active@[before.len() as int] == c.id);
                }
                assert(self.running() =~= old(self).running().insert(c.id));
            }
        }
        CommandEvent::Started {
            id: c.id,
            node_id: c.node_id.clone(),
            identity: c.identity.copy(),
            repo: opt_clone(&c.repo),
            description: c.description.clone(),
        }
    }

    /// Lets a command in and starts it. Nobody hears of a command before it is
    /// known what it is about; one that is about nothing known is refused, and
    /// its number is not given again.
    pub fn accept(
        &mut self,
        command: &Command,
        local_node: &str,
        allow_remote_host: bool,
        registry: &RepoRegistry,
        paths: &Vec<String>,
        detected: &RepoIdentity,
    ) -> (r: Result<(CommandContext, CommandEvent), String>)
        ensures
            if !allow_remote_host && command_node(*command, local_node@) != local_node@ {
                &&& r matches Err(e)
                &&& e@ == "remote command routing not implemented yet for node "@ + command_node(*command, local_node@)
                &&& final(self).next() == old(self).next()
                &&& final(self).running() == old(self).running()
            } else {
                &&& final(self).next() == old(self).next().wrapping_add(1)
                &&& match r {
                    Ok((c, e)) => context_of(
                        Ok(c),
                        old(self).next(),
                        *command,
                        local_node@,
                        registry@,
                        strs(paths@),
                        detected@,
                    ) && announces_start(e, c) && final(self).running() == if c.mode == CommandMode::Running {
                        old(self).running().insert(c.id)
                    } else {
                        old(self).running()
                    },
                    Err(e) => context_of(
                        Err(e),
                        old(self).next(),
                        *command,
                        local_node@,
                        registry@,
                        strs(paths@),
                        detected@,
                    ) && final(self).running() == old(self).running(),
                }
            },
    {
        let id: u64 = match self.let_in(command, local_node, allow_remote_host) {
            Err(e) => {
                return Err(e);
            },
            Ok(id) => id,
        };
        match command_context(id, command, local_node, registry, paths, detected) {
            Err(e) => Err(e),
            Ok(c) => {
                let e = self.start(&c);
                Ok((c, e))
            },
        }
    }

    /// Ends a command; it can no longer be cancelled. `registry` is what is
    /// tracked now, and `value` what carrying it out came to: nothing was
    /// carried out for a question that came in by the wrong door.
    pub fn finish(&mut self, c: &CommandContext, registry: &RepoRegistry, value: CommandValue) -> (e: CommandEvent)
        ensures
            announces_end(e, *c, ends_under(*c, registry@), value),
            final(self).next() == old(self).next(),
            final(self).running() == old(self).running().remove(c.id),
    {
        let identity = if c.tracks_path {
            match &c.repo {
                Some(path) => match registry.tracked_repo_identity_for_path(path.as_str()) {
                    Some(identity) => identity,
                    None => c.identity.copy(),
                },
                None => c.identity.copy(),
            }
        } else {
            c.identity.copy()
        };
        let result = match c.mode {
            CommandMode::Misrouted => misrouted_query(),
            _ => value,
        };
        let mut left: Vec<u64> = Vec::new();
        let mut i: usize = 0;
        while i < self.active.len()
            invariant
                i <= self.active@.len(),
                self.active@ == old(self).active@,
                self.next_id == old(self).next_id,
                forall|x: u64|
                    #[trigger] left@.contains(x) <==> x != c.id && self.active@.take(i as int).contains(x),
            decreases self.active.len() - i,
        {
            let ghost before = left@;
            let x: u64 = self.active[i];
            let ghost taken = self.active@.take(i as int);
            let ghost more = self.active@.take(i + 1);
            assert(more =~= taken.push(x));
            if x != c.id {
                left.push(x);
            }
            proof {
                assert forall|y: u64| #[trigger] left@.contains(y) <==> y != c.id && more.contains(y) by {
                    assert(more[i as int] == x);
                    if taken.contains(y) {
                        let k = choose|k: int| 0 <= k < taken.len() && taken[k] == y;
                        assert(more[k] == y);
                        if y != c.id {
                            assert(before.contains(y));
                            let m = choose|m: int| 0 <= m < before.len() && before[m] == y;
                            assert(left@[m] == y);
                        }
                    }
                    if more.contains(y) && y != x {
                        let k = choose|k: int| 0 <= k < more.len() && more[k] == y;
                        assert(taken[k] == y);
                    }
                    if y == x && x != c.id {
                        assert(left@[before.len() as int] == y);
                    }
                    if left@.contains(y) {
                        let k = choose|k: int| 0 <= k < left@.len() && left@[k] == y;
                        if k < before.len() {
                            assert(before[k] == y);
                            assert(before.contains(y));
                        }
                    }
                }
            }
            i = i + 1;
        }
        proof {
            assert(self.active@.take(self.active@.len() as int) =~= self.active@);
            assert(left@.to_set() =~= self.active@.to_set().remove(c.id));
        }
        self.active = left;
        CommandEvent::Finished {
            id: c.id,
            node_id: c.node_id.clone(),
            identity,
            repo: opt_clone(&c.repo),
            result,
        }
    }

    /// Whether a command may be cancelled.
    pub fn cancel(&self, id: u64) -> (r: Result<(), String>)
        ensures
            match r {
                Ok(()) => self.running().contains(id),
                Err(e) => !self.running().contains(id) && e@ == "no matching active command"@,
            },
    {
        let mut i: usize = 0;
        while i < self.active.len()
            invariant
                i <= self.active@.len(),
                forall|k: int| 0 <= k < i ==> self.active@[k] != id,
            decreases self.active.len() - i,
        {
            if self.active[i] == id {
                assert(self.active@.contains(id));
                return Ok(());
            }
            i = i + 1;
        }
        Err("no matching active command".to_owned())
    }
}

/// What a command comes to, where it either worked or did not.
pub fn value_or_error(r: Result<CommandValue, String>) -> (v: CommandValue)
    ensures
        v == match r {
            Ok(value) => value,
            Err(message) => CommandValue::Error { message },
        },
{
    match r {
        Ok(value) => value,
        Err(message) => CommandValue::Error { message },
    }
}

/// What a question comes to that was sent as a command.
pub fn misrouted_query() -> (v: CommandValue)
    ensures
        v matches CommandValue::Error { message } && message@ == "query commands should use execute_query, not execute"@,
{
    CommandValue::Error { message: "query commands should use execute_query, not execute".to_owned() }
}

/// How a record is deleted.
#[derive(Debug, PartialEq, Eq)]
#[allow(inconsistent_fields)]
pub enum DeleteStep {
    /// Drop the copy that came from elsewhere.
    CollectReplica { origin: String },
    Delete,
    /// The request is invalid.
    Refuse { reason: String },
}

/// A copy is only dropped while its origin cannot be reached; otherwise it
/// would come back.
pub fn delete_step(replica_origin: &Option<String>, origin_connected: bool) -> (r: DeleteStep)
    ensures
        match *replica_origin {
            None => r is Delete,
            Some(root) => if origin_connected {
                r matches DeleteStep::Refuse { reason } && reason@ == "replica origin "@ + root@
                    + " is connected; delete the authoritative resource instead"@
            } else {
                r matches DeleteStep::CollectReplica { origin } && origin@ == root@
            },
        },
{
    match replica_origin {
        None => DeleteStep::Delete,
        Some(root) => {
            if origin_connected {
                DeleteStep::Refuse {
                    reason: concat3(
                        "replica origin ",
                        root.as_str(),
                        " is connected; delete the authoritative resource instead",
                    ),
                }
            } else {
                DeleteStep::CollectReplica { origin: root.clone() }
            }
        },
    }
}

/// What deleting a record comes to. Only a record that is homed here can have
/// been deleted before.
pub fn deleted_value(object: ResourceJson, already_deleted: bool) -> (v: CommandValue)
    ensures
        v == if already_deleted && object.replica_origin is None {
            CommandValue::ResourceAlreadyDeleted { object }
        } else {
            CommandValue::ResourceDeleted { object }
        },
{
    if already_deleted && object.replica_origin.is_none() {
        CommandValue::ResourceAlreadyDeleted { object }
    } else {
        CommandValue::ResourceDeleted { object }
    }
}

/// Refreshing the tracked repositories, one after the other.
#[derive(Debug)]
pub struct RefreshRun {
    pub paths: Vec<String>,
    pub done: usize,
    pub identity_changes: Vec<IdentityChange>,
    pub failure: Option<String>,
}

impl RefreshRun {
    pub open spec fn well_formed(self) -> bool {
        self.done <= self.paths@.len()
    }

    pub fn new(paths: Vec<String>) -> (r: Self)
        ensures
            r.well_formed(),
            r.paths == paths,
            r.done == 0,
            r.identity_changes@.len() == 0,
            r.failure is None,
    {
        RefreshRun { paths, done: 0, identity_changes: Vec::new(), failure: None }
    }

    /// The repository that is refreshed next.
    pub fn next_path(&self) -> (r: Option<String>)
        requires
            self.well_formed(),
        ensures
            match r {
                Some(path) => self.failure is None && self.done < self.paths@.len() && path@ == self.paths@[self.done as int]@,
                None => self.failure is Some || self.done == self.paths@.len(),
            },
    {
        if self.failure.is_none() && self.done < self.paths.len() {
            Some(self.paths[self.done].clone())
        } else {
            None
        }
    }

    /// Notes how the refresh of the next repository went; the first that fails
    /// ends the run.
    pub fn note(&mut self, outcome: Result<Option<IdentityChange>, String>)
        requires
            old(self).well_formed(),
            old(self).failure is None,
            old(self).done < old(self).paths@.len(),
        ensures
            final(self).well_formed(),
            final(self).paths == old(self).paths,
            match outcome {
                Err(e) => final(self).failure == Some(e) && final(self).done == old(self).done
                    && final(self).identity_changes == old(self).identity_changes,
                Ok(change) => {
                    &&& final(self).failure is None
                    &&& final(self).done == old(self).done + 1
                    &&& final(self).identity_changes@ == match change {
                        Some(change) => old(self).identity_changes@.push(change),
                        None => old(self).identity_changes@,
                    }
                },
            },
    {
        match outcome {
            Err(e) => {
                self.failure = Some(e);
            },
            Ok(change) => {
                match change {
                    Some(change) => {
                        self.identity_changes.push(change);
                    },
                    None => {},
                }
                let all: usize = self.paths.len();
                assert(self.done < all);
                self.done = self.done + 1;
            },
        }
    }

    /// What the run came to.
    pub fn outcome(self) -> (v: CommandValue)
        requires
            self.well_formed(),
            self.failure is Some || self.done == self.paths@.len(),
        ensures
            match self.failure {
                Some(message) => v == (CommandValue::Error { message }),
                None => v == (CommandValue::Refreshed { repos: self.paths, identity_changes: self.identity_changes }),
            },
    {
        match self.failure {
            Some(message) => CommandValue::Error { message },
            None => CommandValue::Refreshed { repos: self.paths, identity_changes: self.identity_changes },
        }
    }
}

/// The phase of a piece of work.
#[derive(Debug, Clone, Copy, PartialEq, Eq, Structural)]
pub enum WorkPhase {
    Pending,
    Ready,
    Launching,
    Running,
    Complete,
    Failed,
    Cancelled,
    Abandoned,
}

/// Work that failed or was given up cannot be declared done. `phase` is what is
/// recorded: nothing of the convoy, nothing of the work, or the work's phase.
pub fn check_work_is_completable(convoy: &str, work: &str, phase: &Option<Option<WorkPhase>>) -> (r: Result<(), String>)
    ensures
        match *phase {
            None => r matches Err(e) && e@ == "convoy "@ + convoy@ + " has no status"@,
            Some(None) => r matches Err(e) && e@ == "convoy "@ + convoy@ + " does not contain work "@ + work@,
            Some(Some(p)) => if p == WorkPhase::Failed || p == WorkPhase::Cancelled || p == WorkPhase::Abandoned {
                r matches Err(e) && e@ == "convoy "@ + convoy@ + " work "@ + work@ + " is already terminal"@
            } else {
                r is Ok
            },
        },
{
    match phase {
        None => Err(concat3("convoy ", convoy, " has no status")),
        Some(None) => Err(concat4("convoy ", convoy, " does not contain work ", work)),
        Some(Some(WorkPhase::Failed)) | Some(Some(WorkPhase::Cancelled)) | Some(Some(WorkPhase::Abandoned)) => Err(
            concat5("convoy ", convoy, " work ", work, " is already terminal"),
        ),
        Some(Some(_)) => Ok(()),
    }
}

/// What was found of a record that is to be written.
#[derive(Debug, PartialEq, Eq)]
pub enum RecordReading {
    Absent,
    Present,
    /// It is kept by a declaration.
    Declared,
    Unreadable { error: String },
}

/// How a record is written.
#[derive(Debug, PartialEq, Eq)]
pub enum ApplyStep {
    Update,
    Create,
    Fail { message: String },
}

/// What came of reading a workflow template.
#[derive(Debug, PartialEq, Eq)]
pub enum TemplateReading {
    /// The text is not a template.
    Unreadable { error: String },
    /// What is wrong with the template, if anything.
    Read { problems: Vec<String> },
}

/// Whether a workflow template was read and is sound.
pub fn check_template(reading: &TemplateReading) -> (r: Result<(), String>)
    ensures
        match *reading {
            TemplateReading::Unreadable { error } => r matches Err(e) && e@ == "invalid workflow template YAML: "@ + error@,
            TemplateReading::Read { problems } => if problems@.len() == 0 {
                r is Ok
            } else {
                r matches Err(e) && e@ == "workflow template validation failed: "@ + join(strs(problems@), "; "@)
            },
        },
{
    match reading {
        TemplateReading::Unreadable { error } => Err(concat2("invalid workflow template YAML: ", error.as_str())),
        TemplateReading::Read { problems } => {
            if problems.len() == 0 {
                return Ok(());
            }
            let joined = join_strs(problems, "; ");
            Err(concat2("workflow template validation failed: ", joined.as_str()))
        },
    }
}

/// A workflow that was read well is written over what is there, else created.
pub fn template_apply_step(parsed: &Result<(), String>, existing: &RecordReading) -> (r: ApplyStep)
    ensures
        match *parsed {
            Err(e) => r matches ApplyStep::Fail { message } && message@ == e@,
            Ok(()) => match *existing {
                RecordReading::Present | RecordReading::Declared => r is Update,
                RecordReading::Absent => r is Create,
                RecordReading::Unreadable { error } => r matches ApplyStep::Fail { message } && message@ == error@,
            },
        },
{
    match parsed {
        Err(e) => ApplyStep::Fail { message: e.clone() },
        Ok(()) => match existing {
            RecordReading::Present | RecordReading::Declared => ApplyStep::Update,
            RecordReading::Absent => ApplyStep::Create,
            RecordReading::Unreadable { error } => ApplyStep::Fail { message: error.clone() },
        },
    }
}

/// A project is written where its name and what it says are valid, and no
/// declaration keeps it.
pub fn project_apply_step(
    name: &str,
    parsed: &Result<(), String>,
    normalized: &Result<(), String>,
    existing: &RecordReading,
) -> (r: ApplyStep)
    ensures
        match (checked_project_name(name@), *parsed, *normalized) {
            (Err(e), _, _) => r matches ApplyStep::Fail { message } && message@ == e,
            (Ok(_), Err(e), _) => r matches ApplyStep::Fail { message } && message@ == e@,
            (Ok(_), Ok(_), Err(e)) => r matches ApplyStep::Fail { message } && message@ == e@,
            (Ok(_), Ok(_), Ok(_)) => match *existing {
                RecordReading::Declared => r matches ApplyStep::Fail { message } && message@ == "project "@ + name@
                    + " is managed by a declaration; use project refresh to update it"@,
                RecordReading::Present => r is Update,
                RecordReading::Absent => r is Create,
                RecordReading::Unreadable { error } => r matches ApplyStep::Fail { message } && message@ == error@,
            },
        },
{
    match validate_project_name(name) {
        Err(e) => {
            return ApplyStep::Fail { message: e };
        },
        Ok(()) => {},
    }
    match parsed {
        Err(e) => {
            return ApplyStep::Fail { message: e.clone() };
        },
        Ok(()) => {},
    }
    match normalized {
        Err(e) => {
            return ApplyStep::Fail { message: e.clone() };
        },
        Ok(()) => {},
    }
    match existing {
        RecordReading::Declared => ApplyStep::Fail {
            message: concat3("project ", name, " is managed by a declaration; use project refresh to update it"),
        },
        RecordReading::Present => ApplyStep::Update,
        RecordReading::Absent => ApplyStep::Create,
        RecordReading::Unreadable { error } => ApplyStep::Fail { message: error.clone() },
    }
}

/// What comes of planning a command for a repository.
#[derive(Debug, PartialEq, Eq)]
pub enum PlanStep {
    /// End it without a step taken.
    Finish { value: CommandValue },
    RunSteps,
}

/// A command that the repository's policy forbids is not even planned, and one
/// that cannot be planned takes no step.
pub fn plan_step(policy_error: Option<String>, planned: Result<(), CommandValue>) -> (r: PlanStep)
    ensures
        match policy_error {
            Some(message) => r == (PlanStep::Finish { value: CommandValue::Error { message } }),
            None => match planned {
                Err(value) => r == (PlanStep::Finish { value }),
                Ok(()) => r is RunSteps,
            },
        },
{
    match policy_error {
        Some(message) => PlanStep::Finish { value: CommandValue::Error { message } },
        None => match planned {
            Err(value) => PlanStep::Finish { value },
            Ok(()) => PlanStep::RunSteps,
        },
    }
}

} // verus!
