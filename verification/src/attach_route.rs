//! From an attach target to the command that reaches it.
use vstd::prelude::*;

use crate::address::{address_text, LiveConvoyRecord};
use crate::attach::{AttachTarget, CheckoutRow};
use crate::digest::{hex, sha256, transient_checkout_session_name, zero_separated};
use crate::fleet::{name_of_host, session_role, FleetListRow};
use crate::model::{PlacementTargetHost, TerminalSession};
use crate::ordered::{sort_dedup, sorted_unique};
use crate::text::{
    blank, concat2, concat3, concat4, concat5, holds, lemma_strs_push, opt, opt_clone, opt_is, split_once, str_blank, str_eq, str_split_once,
    strs, strs_hold,
};

verus! {

/// What an attached pane is bound to.
#[derive(Debug, PartialEq, Eq)]
pub struct AttachBinding {
    pub host: String,
    pub namespace: String,
    pub session: Option<String>,
    pub convoy: Option<String>,
    pub vessel: Option<String>,
    pub role: Option<String>,
}

/// `b` binds to a session that runs on `host`.
pub open spec fn binds_session(b: AttachBinding, s: TerminalSession, host: Seq<char>) -> bool {
    &&& b.host@ == host
    &&& b.namespace@ == s.namespace@
    &&& opt(b.session) == Some(s.name@)
    &&& b.convoy == s.labels.convoy
    &&& b.vessel == s.labels.vessel
    &&& opt(b.role) == Some(session_role(s))
}

pub fn session_binding(s: &TerminalSession, host: &str) -> (b: AttachBinding)
    ensures
        binds_session(b, *s, host@),
{
    AttachBinding {
        host: host.to_owned(),
        namespace: s.namespace.clone(),
        session: Some(s.name.clone()),
        convoy: opt_clone(&s.labels.convoy),
        vessel: opt_clone(&s.labels.vessel),
        role: Some(
            match &s.labels.role {
                Some(role) => role.clone(),
                None => s.role.clone(),
            },
        ),
    }
}

/// A text, unless it stands for nothing.
pub open spec fn unless_dash(s: Seq<char>) -> Option<Seq<char>> {
    if s == "-"@ {
        None
    } else {
        Some(s)
    }
}

/// `b` binds to a row of a replica, whose crew reads `vessel/role` or is a bare role.
pub open spec fn binds_row(b: AttachBinding, row: FleetListRow) -> bool {
    &&& b.host@ == row.host@
    &&& b.namespace@ == row.namespace@
    &&& b.session == row.session
    &&& opt(b.convoy) == (match row.convoy_ref {
        Some(convoy) => Some(convoy@),
        None => unless_dash(row.convoy@),
    })
    &&& match split_once(row.crew@, '/') {
        Some((vessel, role)) => opt(b.vessel) == Some(vessel) && opt(b.role) == Some(role),
        None => b.vessel is None && opt(b.role) == (if row.crew@.len() == 0 {
            None
        } else {
            unless_dash(row.crew@)
        }),
    }
}

pub fn row_binding(row: &FleetListRow) -> (b: AttachBinding)
    ensures
        binds_row(b, *row),
{
    let (vessel, role): (Option<String>, Option<String>) = match str_split_once(row.crew.as_str(), '/') {
        Some((vessel, role)) => (Some(vessel), Some(role)),
        None => {
            if row.crew.as_str().is_empty() || str_eq(row.crew.as_str(), "-") {
                (None, None)
            } else {
                (None, Some(row.crew.clone()))
            }
        },
    };
    let convoy: Option<String> = match &row.convoy_ref {
        Some(convoy) => Some(convoy.clone()),
        None => {
            if str_eq(row.convoy.as_str(), "-") {
                None
            } else {
                Some(row.convoy.clone())
            }
        },
    };
    AttachBinding {
        host: row.host.clone(),
        namespace: row.namespace.clone(),
        session: opt_clone(&row.session),
        convoy,
        vessel,
        role,
    }
}

/// How a target is reached.
#[derive(Debug, PartialEq, Eq)]
pub enum AttachStep {
    /// By the environment of a session this host knows.
    Session,
    /// By attaching on another host.
    Remote { host: String },
    /// By a new terminal in a checkout of this host.
    CheckoutTerminal,
}

/// How the target is reached, or why it is not. A checkout is reached only by
/// an attach that leaves nothing behind.
pub open spec fn step_for(target: AttachTarget, transient: bool, host_name: Seq<char>, r: Result<AttachStep, String>) -> bool {
    match target {
        AttachTarget::Local(_) => r == Ok::<AttachStep, String>(AttachStep::Session),
        AttachTarget::Replica(row) => r matches Ok(AttachStep::Remote { host }) && host@ == row.host@,
        AttachTarget::Checkout(row) => if !transient {
            r matches Err(e) && e@ == "checkout '"@ + row.path@ + "' is only available as a transient attach target"@
        } else if row.host@ == host_name {
            r == Ok::<AttachStep, String>(AttachStep::CheckoutTerminal)
        } else {
            r matches Ok(AttachStep::Remote { host }) && host@ == row.host@
        },
    }
}

pub fn attach_step(target: &AttachTarget, transient: bool, host_name: &str) -> (r: Result<AttachStep, String>)
    ensures
        step_for(*target, transient, host_name@, r),
{
    match target {
        AttachTarget::Local(_) => Ok(AttachStep::Session),
        AttachTarget::Replica(row) => Ok(AttachStep::Remote { host: row.host.clone() }),
        AttachTarget::Checkout(row) => {
            if !transient {
                Err(concat3("checkout '", row.path.as_str(), "' is only available as a transient attach target"))
            } else if str_eq(row.host.as_str(), host_name) {
                Ok(AttachStep::CheckoutTerminal)
            } else {
                Ok(AttachStep::Remote { host: row.host.clone() })
            }
        },
    }
}

/// Where an attach goes once its reference has been looked up as a role.
#[derive(Debug, PartialEq, Eq)]
pub enum AttachRoute {
    /// To the host that owns the convoy, under the convoy's address.
    Owner { host: String, reference: String, convoy: String, role: String },
    /// To the candidates of this host, under a reference.
    Index { reference: String },
}

/// The route of a reference that is not blank.
pub open spec fn routed(
    reference: Seq<char>,
    live: Option<LiveConvoyRecord>,
    host: Option<Seq<char>>,
    host_name: Seq<char>,
    r: Result<AttachRoute, String>,
) -> bool {
    match live {
        None => r matches Ok(AttachRoute::Index { reference: x }) && x@ == reference,
        Some(record) => if host is Some && host->0 != record.owner_host@ {
            r matches Err(e) && e@ == "no attach target matching '"@ + reference + "' on host '"@ + host->0 + "'"@
        } else if record.owner_host@ != host_name {
            r matches Ok(AttachRoute::Owner { host: h, reference: x, convoy, role }) && h@ == record.owner_host@ && x@
                == address_text(record.address.role@, Some(record.address.project@)) && convoy@ == record.record_name@
                && role@ == record.address.role@
        } else {
            r matches Ok(AttachRoute::Index { reference: x }) && x@ == record.record_name@
        },
    }
}

/// Where an attach goes. `live` is the live convoy the reference means as a
/// role, where it means one.
pub fn attach_route(
    reference: &str,
    live: &Option<LiveConvoyRecord>,
    host: &Option<String>,
    host_name: &str,
) -> (r: Result<AttachRoute, String>)
    ensures
        if blank(reference@) {
            r matches Err(e) && e@ == "attach reference is required"@
        } else {
            routed(reference@, *live, opt(*host), host_name@, r)
        },
{
    if str_blank(reference) {
        return Err("attach reference is required".to_owned());
    }
    match live {
        None => Ok(AttachRoute::Index { reference: reference.to_owned() }),
        Some(record) => {
            if let Some(requested) = host {
                if !str_eq(requested.as_str(), record.owner_host.as_str()) {
                    return Err(
                        concat5(
                            "no attach target matching '",
                            reference,
                            "' on host '",
                            requested.as_str(),
                            "'",
                        ),
                    );
                }
            }
            if str_eq(record.owner_host.as_str(), host_name) {
                Ok(AttachRoute::Index { reference: record.record_name.clone() })
            } else {
                Ok(
                    AttachRoute::Owner {
                        host: record.owner_host.clone(),
                        reference: record.address.to_text(),
                        convoy: record.record_name.clone(),
                        role: record.address.role.clone(),
                    },
                )
            }
        },
    }
}

/// The known host that a reference names, or why there is none.
pub open spec fn known_host(
    host_ref: Seq<char>,
    resolution: Result<Option<PlacementTargetHost>, String>,
) -> Result<PlacementTargetHost, Seq<char>> {
    match resolution {
        Ok(Some(target)) => Ok(target),
        Ok(None) => Err("references unknown host `"@ + host_ref + "`"@),
        Err(e) => Err(e@),
    }
}

pub fn canonical_host(host_ref: &str, resolution: &Result<Option<PlacementTargetHost>, String>) -> (r: Result<PlacementTargetHost, String>)
    ensures
        match r {
            Ok(t) => known_host(host_ref@, *resolution) == Ok::<PlacementTargetHost, Seq<char>>(t),
            Err(e) => known_host(host_ref@, *resolution) == Err::<PlacementTargetHost, Seq<char>>(e@),
        },
{
    match resolution {
        Ok(Some(target)) => Ok(target.copy()),
        Ok(None) => Err(concat3("references unknown host `", host_ref, "`")),
        Err(e) => Err(e.clone()),
    }
}

/// The name of the host that a reference names.
pub fn target_host_for_resource_ref(
    host_ref: &str,
    resolution: &Result<Option<PlacementTargetHost>, String>,
    local_host_id: &Option<String>,
    host_name: &str,
) -> (r: Result<String, String>)
    ensures
        match known_host(host_ref@, *resolution) {
            Ok(target) => r matches Ok(name) && name@ == name_of_host(
                target.reference@,
                opt(*local_host_id),
                host_name@,
            ),
            Err(e) => r matches Err(x) && x@ == e,
        },
{
    match canonical_host(host_ref, resolution) {
        Ok(target) => Ok(
            crate::fleet::host_name_for_canonical_ref(target.reference.as_str(), local_host_id, host_name),
        ),
        Err(e) => Err(e),
    }
}

/// What was found of a session's environment.
pub enum EnvironmentLookup {
    Failed(String),
    /// The host it is bound to by reference, and what the reference resolved to.
    Found { host_ref: Option<String>, host: Result<Option<PlacementTargetHost>, String> },
}

/// The host that owns a session, from its environment.
pub open spec fn owning_host(
    env_ref: Seq<char>,
    lookup: EnvironmentLookup,
    local_host_id: Option<Seq<char>>,
    host_name: Seq<char>,
) -> Result<Seq<char>, Seq<char>> {
    match lookup {
        EnvironmentLookup::Failed(e) => Err("environment "@ + env_ref + " lookup failed: "@ + e@),
        EnvironmentLookup::Found { host_ref, host } => match host_ref {
            None => Err("environment "@ + env_ref + " has no host binding"@),
            Some(host_ref) => match known_host(host_ref@, host) {
                Ok(target) => Ok(name_of_host(target.reference@, local_host_id, host_name)),
                Err(e) => Err(e),
            },
        },
    }
}

/// The host that owns a session: this one, or the one to attach on.
pub fn session_owner(
    env_ref: &str,
    lookup: &EnvironmentLookup,
    local_host_id: &Option<String>,
    host_name: &str,
) -> (r: Result<String, String>)
    ensures
        match r {
            Ok(h) => owning_host(env_ref@, *lookup, opt(*local_host_id), host_name@) == Ok::<Seq<char>, Seq<char>>(h@),
            Err(e) => owning_host(env_ref@, *lookup, opt(*local_host_id), host_name@) == Err::<Seq<char>, Seq<char>>(
                e@,
            ),
        },
{
    match lookup {
        EnvironmentLookup::Failed(e) => Err(
            crate::text::concat4("environment ", env_ref, " lookup failed: ", e.as_str()),
        ),
        EnvironmentLookup::Found { host_ref, host } => match host_ref {
            None => Err(concat3("environment ", env_ref, " has no host binding")),
            Some(host_ref) => target_host_for_resource_ref(host_ref.as_str(), host, local_host_id, host_name),
        },
    }
}

/// How strictly a seat is claimed.
#[derive(Debug, Clone, Copy, PartialEq, Eq, Structural)]
pub enum AttachMode {
    Default,
    Strict,
    Take,
}

/// An argument of a command line: taken as it is, or quoted.
#[derive(Debug, PartialEq, Eq)]
pub enum AttachArg {
    Literal(String),
    Quoted(String),
}

/// Whether an argument is quoted, and its text.
pub open spec fn arg(a: AttachArg) -> (bool, Seq<char>) {
    match a {
        AttachArg::Literal(s) => (false, s@),
        AttachArg::Quoted(s) => (true, s@),
    }
}

/// The arguments that a mode adds.
pub open spec fn mode_args(mode: AttachMode) -> Seq<(bool, Seq<char>)> {
    match mode {
        AttachMode::Default => Seq::empty(),
        AttachMode::Strict => seq![(false, "--strict"@)],
        AttachMode::Take => seq![(false, "--take"@)],
    }
}

/// The command that attaches on another host. It leaves no identity behind:
/// that belongs to the attach in the foreground.
pub open spec fn remote_command(host: Seq<char>, reference: Seq<char>, mode: AttachMode) -> Seq<(bool, Seq<char>)> {
    seq![
        (false, "flotilla"@),
        (false, "attach"@),
        (false, "--host"@),
        (true, host),
        (false, "--transient"@),
    ] + mode_args(mode) + seq![(true, reference)]
}

pub fn remote_attach_command(target_host: &str, reference: &str, mode: AttachMode) -> (r: Vec<AttachArg>)
    ensures
        r@.map_values(|a: AttachArg| arg(a)) == remote_command(target_host@, reference@, mode),
{
    let mut command: Vec<AttachArg> = Vec::new();
    command.push(AttachArg::Literal("flotilla".to_owned()));
    command.push(AttachArg::Literal("attach".to_owned()));
    command.push(AttachArg::Literal("--host".to_owned()));
    command.push(AttachArg::Quoted(target_host.to_owned()));
    command.push(AttachArg::Literal("--transient".to_owned()));
    match mode {
        AttachMode::Default => {},
        AttachMode::Strict => {
            command.push(AttachArg::Literal("--strict".to_owned()));
        },
        AttachMode::Take => {
            command.push(AttachArg::Literal("--take".to_owned()));
        },
    }
    command.push(AttachArg::Quoted(reference.to_owned()));
    assert(command@.map_values(|a: AttachArg| arg(a)) =~= remote_command(target_host@, reference@, mode));
    command
}

/// The next host towards a target: the routed one, or the target; never this host.
pub fn next_hop_for(target_host: &str, routed: &Option<String>, host_name: &str) -> (r: Result<String, String>)
    ensures
        ({
            let hop = match opt(*routed) {
                Some(h) => h,
                None => target_host@,
            };
            match r {
                Ok(h) => h@ == hop && hop != host_name@,
                Err(e) => hop == host_name@ && e@ == "unreachable next hop for host '"@ + target_host@
                    + "': route points back to local host"@,
            }
        }),
{
    let hop = match routed {
        Some(h) => h.clone(),
        None => target_host.to_owned(),
    };
    if str_eq(hop.as_str(), host_name) {
        Err(
            concat3(
                "unreachable next hop for host '",
                target_host,
                "': route points back to local host",
            ),
        )
    } else {
        Ok(hop)
    }
}

/// The reference a binding is reached again under.
pub fn binding_reference(binding: &AttachBinding) -> (r: Result<String, String>)
    ensures
        match (binding.session, binding.convoy) {
            (Some(s), _) => r == Ok::<String, String>(s),
            (None, Some(c)) => r == Ok::<String, String>(c),
            (None, None) => r matches Err(e) && e@
                == "remote attach binding has neither a session nor convoy reference"@,
        },
{
    match (&binding.session, &binding.convoy) {
        (Some(s), _) => Ok(s.clone()),
        (None, Some(c)) => Ok(c.clone()),
        (None, None) => Err("remote attach binding has neither a session nor convoy reference".to_owned()),
    }
}

/// A project, as far as a repository leads to it.
pub struct ProjectMembership {
    pub name: String,
    pub repositories: Vec<String>,
    /// The repository that holds the project's declaration.
    pub bootstrap_repository: Option<String>,
}

/// The names of the projects that a repository is part of, or declares.
pub open spec fn project_names(projects: Seq<ProjectMembership>, key: Seq<char>, declared: bool) -> Seq<Seq<char>>
    decreases projects.len(),
{
    if projects.len() == 0 {
        Seq::empty()
    } else {
        let before = project_names(projects.drop_last(), key, declared);
        let p = projects.last();
        if holds(strs(p.repositories@), key) && (!declared || opt(p.bootstrap_repository) == Some(key)) {
            before.push(p.name@)
        } else {
            before
        }
    }
}

/// The project at hand in a repository: the one it declares, else the one it is part of.
pub open spec fn context_project(projects: Seq<ProjectMembership>, key: Seq<char>) -> Option<Seq<char>> {
    let declared = sorted_unique(project_names(projects, key, true));
    let all = sorted_unique(project_names(projects, key, false));
    if declared.len() == 1 {
        Some(declared[0])
    } else if all.len() == 1 {
        Some(all[0])
    } else {
        None
    }
}

fn collect_project_names(projects: &Vec<ProjectMembership>, key: &str, declared: bool) -> (r: Vec<String>)
    ensures
        strs(r@) == project_names(projects@, key@, declared),
{
    let mut r: Vec<String> = Vec::new();
    let mut i: usize = 0;
    assert(strs(r@) =~= project_names(projects@.take(0), key@, declared));
    while i < projects.len()
        invariant
            i <= projects@.len(),
            strs(r@) == project_names(projects@.take(i as int), key@, declared),
        decreases projects.len() - i,
    {
        let p = &projects[i];
        assert(projects@.take(i + 1).drop_last() =~= projects@.take(i as int));
        assert(projects@.take(i + 1).last() == *p);
        if strs_hold(&p.repositories, key) && (!declared || opt_is(&p.bootstrap_repository, key)) {
            let name = p.name.clone();
            proof {
                lemma_strs_push(r@, name);
            }
            r.push(name);
        }
        i = i + 1;
    }
    assert(projects@.take(projects@.len() as int) =~= projects@);
    r
}

pub fn attach_project_context(projects: &Vec<ProjectMembership>, repository_key: &str) -> (r: Option<String>)
    ensures
        opt(r) == context_project(projects@, repository_key@),
{
    let declared = sort_dedup(&collect_project_names(projects, repository_key, true));
    assert(strs(declared@).len() == declared@.len());
    if declared.len() == 1 {
        assert(strs(declared@)[0] == declared@[0]@);
        return Some(declared[0].clone());
    }
    let all = sort_dedup(&collect_project_names(projects, repository_key, false));
    assert(strs(all@).len() == all@.len());
    if all.len() == 1 {
        assert(strs(all@)[0] == all@[0]@);
        Some(all[0].clone())
    } else {
        None
    }
}

/// What a local attach needs of the session's environment.
pub struct LocalAttach {
    pub pool: String,
    pub pool_available: bool,
    pub docker: bool,
    pub container: Option<String>,
}

/// The container a local attach enters, where the environment is one.
pub fn local_attach_container(env_ref: &str, attach: &LocalAttach) -> (r: Result<Option<String>, String>)
    ensures
        if !attach.pool_available {
            r matches Err(e) && e@ == "terminal pool "@ + attach.pool@ + " unavailable for environment "@ + env_ref@
        } else if !attach.docker {
            r == Ok::<Option<String>, String>(None)
        } else {
            match attach.container {
                Some(c) => r == Ok::<Option<String>, String>(Some(c)),
                None => r matches Err(e) && e@ == "environment "@ + env_ref@ + " has no docker container id"@,
            }
        },
{
    if !attach.pool_available {
        return Err(
            crate::text::concat4(
                "terminal pool ",
                attach.pool.as_str(),
                " unavailable for environment ",
                env_ref,
            ),
        );
    }
    if !attach.docker {
        return Ok(None);
    }
    match &attach.container {
        Some(c) => Ok(Some(c.clone())),
        None => Err(concat3("environment ", env_ref, " has no docker container id")),
    }
}

/// The environment whose providers serve a session: this host's own where the
/// session's environment is bound directly to it.
pub fn registry_environment(
    name: &str,
    host_direct_ref: &Option<String>,
    resolution: &Result<Option<PlacementTargetHost>, String>,
    local_host_id: &Option<String>,
    local_environment: &str,
) -> (r: Result<String, String>)
    ensures
        match host_direct_ref {
            None => r matches Ok(e) && e@ == name@,
            Some(host_ref) => match known_host(host_ref@, *resolution) {
                Err(e) => r matches Err(x) && x@ == e,
                Ok(target) => r matches Ok(e) && e@ == (if opt(*local_host_id) == Some(target.reference@) {
                    local_environment@
                } else {
                    name@
                }),
            },
        },
{
    match host_direct_ref {
        None => Ok(name.to_owned()),
        Some(host_ref) => match canonical_host(host_ref.as_str(), resolution) {
            Err(e) => Err(e),
            Ok(target) => {
                if opt_is(local_host_id, target.reference.as_str()) {
                    Ok(local_environment.to_owned())
                } else {
                    Ok(name.to_owned())
                }
            },
        },
    }
}

/// The session of a terminal that is opened in a checkout. `pool` says whether
/// the checkout's providers offer a terminal pool.
pub fn checkout_terminal_session(checkout: &CheckoutRow, pool: &Result<bool, String>) -> (r: Result<String, String>)
    ensures
        match *pool {
            Err(error) => r matches Err(e) && e@ == "checkout "@ + checkout.path@ + " provider discovery failed: "@ + error@,
            Ok(false) => r matches Err(e) && e@ == "no terminal pool available for checkout "@ + checkout.path@,
            Ok(true) => r matches Ok(name) && name@ == "flotilla-checkout-"@ + hex(
                sha256(zero_separated(checkout.host@, checkout.path@)).take(16),
            ),
        },
{
    match pool {
        Err(error) => Err(concat4("checkout ", checkout.path.as_str(), " provider discovery failed: ", error.as_str())),
        Ok(false) => Err(concat2("no terminal pool available for checkout ", checkout.path.as_str())),
        Ok(true) => Ok(transient_checkout_session_name(checkout.host.as_str(), checkout.path.as_str())),
    }
}

} // verus!
