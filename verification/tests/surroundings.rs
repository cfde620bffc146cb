use flotilla_core::address::ConvoyAddressIdentity;
use flotilla_core::checkouts::{
    adopted_publication, adopted_record, adopting_convoy, check_configured_repository, inspect_adopted_checkout, is_main_branch,
    persist_adopted_checkout, resolve_declared_repository, AdoptOutcome, AdoptReadings, AdoptRequest, AdoptStep, AdoptedCheckout,
    AdoptingConvoy, CheckoutInspection, DeclaredSource, PublishOutcome,
};
use flotilla_core::environment::{
    check_ssh_registration, load_env_vars, local_host_counts, EnvironmentAssertion, EnvironmentBag, StaticEnvVars, TimedOutcome,
};
use flotilla_core::listing::{
    get_status, host_providers, list_projects, list_repos, HostProvider, ListedMember, ListedProjectRecord, ProjectListRepository, ProviderInfo,
    ProviderNames, RepoDetails, provider_infos, providers_of,
};
use flotilla_core::commands::CommandAction;
use flotilla_core::crew::CrewCommandContext;
use flotilla_core::ordered::OrderedMap;
use flotilla_core::repos::{RepoIdentity, RepoRegistry, RepoSelector};
use flotilla_core::steps::{batch_repository, BatchRun, BatchStep, RemoteStep, StepResult, StepStatus};
use flotilla_core::targets::{
    convoy_home, convoy_home_unreachable_message, resolve_existing_convoy_target, target_convoy, ExistingConvoyTarget, HomeReading,
    TargetRow,
};
use flotilla_core::time::Timestamp;

fn text(value: &str) -> Option<String> {
    Some(value.to_string())
}

fn texts(items: &[&str]) -> Vec<String> {
    items.iter().map(|item| item.to_string()).collect()
}

fn target_row<'a>(name: &'a str, role: Option<&'a str>, project: Option<&'a str>, terminal: bool, host: &str) -> TargetRow<'a> {
    TargetRow {
        namespace: "flotilla".to_string(),
        identity: ConvoyAddressIdentity { record_name: name, role, project, terminal },
        host: text(host),
    }
}

#[test]
fn convoy_routing_falls_back_to_a_unique_terminal_generation_and_refuses_multiple() {
    let one = target_row("convoy-one", Some("inspector"), Some("flotilla"), true, "kiwi");
    assert_eq!(
        convoy_home(&vec![one], "flotilla", "inspector@flotilla"),
        Ok(HomeReading::At { home: "kiwi".to_string(), record_name: "convoy-one".to_string() })
    );
    let both = vec![
        target_row("convoy-one", Some("inspector"), Some("flotilla"), true, "kiwi"),
        target_row("convoy-two", Some("inspector"), Some("flotilla"), true, "kiwi"),
    ];
    assert_eq!(
        convoy_home(&both, "flotilla", "inspector@flotilla"),
        Err("convoy address `inspector@flotilla` matches multiple terminal records; use an exact record name: convoy-one, convoy-two"
            .to_string())
    );
}

#[test]
fn convoy_routing_prefers_an_exact_terminal_pre_identity_record() {
    let rows = vec![target_row("pre-identity-record", None, None, true, "kiwi")];
    assert_eq!(
        convoy_home(&rows, "flotilla", "pre-identity-record"),
        Ok(HomeReading::At { home: "kiwi".to_string(), record_name: "pre-identity-record".to_string() })
    );
}

#[test]
fn convoy_routing_does_not_treat_a_legacy_display_name_as_role_identity() {
    let rows = vec![
        target_row("inspector", None, Some("flotilla"), true, "kiwi"),
        target_row("convoy-one", Some("inspector"), Some("flotilla"), true, "kiwi"),
    ];
    assert_eq!(
        convoy_home(&rows, "flotilla", "inspector@flotilla"),
        Ok(HomeReading::At { home: "kiwi".to_string(), record_name: "convoy-one".to_string() })
    );
}

#[test]
fn a_convoy_on_two_hosts_has_no_home() {
    let rows = vec![
        target_row("convoy-one", Some("governor"), None, false, "kiwi"),
        target_row("convoy-one", Some("governor"), None, false, "feta"),
    ];
    assert_eq!(
        convoy_home(&rows, "flotilla", "convoy-one"),
        Err("convoy convoy-one is present on multiple home hosts: feta, kiwi".to_string())
    );
    assert_eq!(convoy_home(&rows, "other", "convoy-one"), Ok(HomeReading::Nowhere));
}

#[test]
fn commands_name_the_convoy_that_they_are_about() {
    let about = |namespace: &str, name: &str| Ok(Some((namespace.to_string(), name.to_string())));
    let delete = |namespace: Option<String>| CommandAction::ConvoyDelete { namespace, name: "x".to_string() };
    assert_eq!(target_convoy(&delete(None), "flotilla"), about("flotilla", "x"));
    assert_eq!(target_convoy(&delete(text("other")), "flotilla"), about("other", "x"));
    let explain = CommandAction::QueryExplainConvoy { namespace: None, name: "y".to_string() };
    assert_eq!(target_convoy(&explain, "flotilla"), about("flotilla", "y"));
    let force = CommandAction::ConvoyWorkForceComplete { convoy: "z".to_string() };
    assert_eq!(target_convoy(&force, "flotilla"), about("flotilla", "z"));
    let from = |convoy: Option<String>| CrewCommandContext { crew_id: None, namespace: text("other"), convoy, vessel_ref: None, role: None };
    assert_eq!(target_convoy(&CommandAction::CrewHandoff { context: from(text("x")) }, "flotilla"), about("other", "x"));
    assert_eq!(
        target_convoy(&CommandAction::QueryCrewList { context: from(None) }, "flotilla"),
        Err("crew command was not resolved to a convoy".to_string())
    );
    assert_eq!(target_convoy(&CommandAction::ProjectAdd, "flotilla"), Ok(None));
}

#[test]
fn an_unreachable_home_can_be_worked_around() {
    let seen = Timestamp::at(1786795200, 0);
    let unreachable = "convoy flotilla/x is homed at feta, last seen 2026-08-15T12:00:00+00:00; home is unreachable: no routed node \
                       address found for host. Break glass: flotilla resource delete convoys x --namespace flotilla --host feta";
    assert_eq!(
        resolve_existing_convoy_target("feta", "x", "flotilla", "kiwi", "node-1", &seen, &Ok(None)),
        Err(unreachable.to_string())
    );
    assert_eq!(
        convoy_home_unreachable_message("flotilla", "x", "feta", &None, "down"),
        "convoy flotilla/x is homed at feta, last seen unknown; home is unreachable: down. Break glass: flotilla resource delete convoys \
         x --namespace flotilla --host feta"
    );
    let there = resolve_existing_convoy_target("feta", "x", "flotilla", "kiwi", "node-1", &seen, &Ok(text("node-2"))).expect("a target");
    assert_eq!((there.node_id.as_str(), there.last_seen_at), ("node-2", seen));
    assert_eq!(there.unreachable_message("no routed node address found for host"), unreachable);
    assert_eq!(
        resolve_existing_convoy_target("kiwi", "x", "flotilla", "kiwi", "node-1", &seen, &Ok(None)),
        Ok(ExistingConvoyTarget {
            home: "kiwi".to_string(),
            node_id: "node-1".to_string(),
            namespace: "flotilla".to_string(),
            record_name: "x".to_string(),
            last_seen_at: None,
        })
    );
}

#[test]
fn variables_come_from_assertions_and_listings() {
    let set = |key: &str, value: &str| EnvironmentAssertion::EnvVarSet { key: key.to_string(), value: value.to_string() };
    let bag = EnvironmentBag { assertions: vec![set("A", "1"), EnvironmentAssertion::Other, set("A", "2"), set("B", "3")] };
    let vars = StaticEnvVars::from_bag(&bag);
    assert_eq!(vars.get("A"), text("2"));
    assert_eq!(vars.get("B"), text("3"));
    assert_eq!(vars.get("C"), None);
    let listed = load_env_vars(&text("HOME=/root\nPATH=/bin:/x=y\nbroken\n"));
    assert_eq!(listed.get("HOME"), text("/root"));
    assert_eq!(listed.get("PATH"), text("/bin:/x=y"));
    assert_eq!(listed.get("broken"), None);
    assert_eq!(load_env_vars(&None).vars.len(), 0);
}

#[test]
fn a_host_is_registered_when_it_answers() {
    assert_eq!(check_ssh_registration("feta", &TimedOutcome::Done, false), Ok(()));
    assert_eq!(check_ssh_registration("feta", &TimedOutcome::TimedOut, false), Err("ssh preflight timed out for feta".to_string()));
    assert_eq!(
        check_ssh_registration("feta", &TimedOutcome::Failed { error: "refused".to_string() }, false),
        Err("ssh preflight failed for feta: refused".to_string())
    );
    assert_eq!(check_ssh_registration("feta", &TimedOutcome::Done, true), Err("host detector execution timed out for feta".to_string()));
    let counts = local_host_counts(&vec![text("kiwi"), None, text("kiwi"), text("feta")]);
    assert_eq!(counts.get("kiwi"), Some(&2));
    assert_eq!(counts.get("feta"), Some(&1));
}

#[test]
fn remote_steps_run_in_turn_on_their_node() {
    let step = |node: &str| RemoteStep { node_id: node.to_string(), shown_host: "feta".to_string(), description: "build".to_string() };
    let mut run = BatchRun::new(vec![step("node-1"), step("node-2")]);
    match run.next_step("node-1", false) {
        BatchStep::Take { progress } => {
            assert_eq!((progress.batch_step_index, progress.batch_step_count, progress.status), (0, 2, StepStatus::Started));
        }
        other => panic!("{other:?}"),
    }
    assert_eq!(run.next_step("node-1", true), BatchStep::Finish { outcome: Err("cancelled".to_string()) });
    let (said, over) = run.note(StepResult::Succeeded, false);
    assert_eq!(said.map(|progress| progress.status), Some(StepStatus::Succeeded));
    assert_eq!(over, None);
    assert_eq!(
        run.next_step("node-1", false),
        BatchStep::Finish { outcome: Err("remote step 1 targets feta, expected remote node node-1".to_string()) }
    );
    assert_eq!(run.note(StepResult::Skipped, true), (None, text("cancelled")));
    let (said, over) = run.note(StepResult::Failed { message: "no".to_string() }, false);
    assert_eq!(said.map(|progress| progress.status), Some(StepStatus::Failed { message: "no".to_string() }));
    assert_eq!(over, text("no"));
    assert_eq!(BatchRun::new(vec![]).next_step("node-1", false), BatchStep::Finish { outcome: Ok(()) });
}

#[test]
fn a_remote_is_declared_by_one_repository() {
    let source = |name: &str, remotes: &[&str], declares: bool| DeclaredSource { name: name.to_string(), remotes: texts(remotes), declares };
    let remote = text("https://x");
    assert_eq!(
        resolve_declared_repository(&remote, &vec![source("a", &["https://x", "https://y"], true), source("b", &["https://x"], true)]),
        Ok(Some(texts(&["https://x", "https://y"])))
    );
    assert_eq!(
        resolve_declared_repository(&remote, &vec![source("a", &["https://x"], true), source("b", &["https://x"], true)]),
        Err("remote `https://x` is declared by multiple Repositories".to_string())
    );
    assert_eq!(
        resolve_declared_repository(
            &remote,
            &vec![source("a", &["https://x", "https://y"], true), source("a", &["https://x", "https://z"], true)]
        ),
        Err("remote `https://x` has conflicting declarations for one Repository".to_string())
    );
    assert_eq!(resolve_declared_repository(&remote, &vec![source("a", &["https://z"], false)]), Ok(None));
    assert_eq!(resolve_declared_repository(&None, &vec![source("a", &["https://x"], true)]), Ok(None));
}

#[test]
fn main_branches_go_by_three_names() {
    assert!(is_main_branch("main") && is_main_branch("master") && is_main_branch("trunk"));
    assert!(!is_main_branch("feature"));
}

#[test]
fn an_adopted_checkout_is_recorded_once() {
    assert_eq!(persist_adopted_checkout("x", &AdoptOutcome::Created { has_status: false }), Ok(true));
    let conflict = |adopted: Result<bool, &str>, same_details: bool| AdoptOutcome::Conflict {
        adopted: adopted.map_err(str::to_string),
        same_details,
        has_status: true,
    };
    assert_eq!(persist_adopted_checkout("x", &conflict(Ok(true), true)), Ok(false));
    assert_eq!(
        persist_adopted_checkout("x", &conflict(Ok(false), true)),
        Err("checkout x already exists but is not adopted".to_string())
    );
    assert_eq!(
        persist_adopted_checkout("x", &conflict(Ok(true), false)),
        Err("checkout x already exists with different adopted checkout details".to_string())
    );
    assert_eq!(persist_adopted_checkout("x", &conflict(Err("bad"), true)), Err("bad".to_string()));
    assert_eq!(persist_adopted_checkout("x", &AdoptOutcome::Failed { error: "down".to_string() }), Err("down".to_string()));
}

#[test]
fn a_checkout_is_traced_to_the_convoy_that_adopted_it() {
    let convoy = |name: &str, origin: Option<&str>, expected: Option<&[&str]>| AdoptingConvoy {
        name: name.to_string(),
        origin_root: origin.map(str::to_string),
        expected: expected.map(texts),
    };
    let checkout = |convoy_ref: Option<&str>, root: Option<&str>| AdoptedCheckout {
        name: "checkout-1".to_string(),
        convoy_ref: convoy_ref.map(str::to_string),
        source_root: root.map(str::to_string),
    };
    let convoys = vec![convoy("a", None, Some(&["checkout-1"])), convoy("b", Some("root"), Some(&["checkout-1"]))];
    assert_eq!(adopting_convoy(&convoys, &checkout(Some("b"), None)), Some(1));
    assert_eq!(adopting_convoy(&convoys, &checkout(None, None)), Some(0));
    assert_eq!(adopting_convoy(&convoys, &checkout(None, Some("root"))), Some(1));
    assert_eq!(adopting_convoy(&convoys, &checkout(Some("z"), None)), None);
}

#[test]
fn projects_are_listed_with_their_repositories() {
    let project = |name: &str| ListedProjectRecord {
        namespace: "flotilla".to_string(),
        name: name.to_string(),
        display_name: "Display".to_string(),
        issue_source: text("github:acme/app"),
        default_workflow_ref: "work".to_string(),
        members: vec![
            ListedMember { repo: "repo-a".to_string(), subpath: text("web") },
            ListedMember { repo: "repo-a".to_string(), subpath: text("api") },
        ],
        conflicts: vec![],
    };
    let mut slugs = OrderedMap::new();
    slugs.insert("repo-a".to_string(), "acme/app".to_string());
    let entries = list_projects(&vec![project("b"), project("a")], &slugs);
    assert_eq!(entries[0].name, "a");
    assert_eq!(entries[0].issue_source, text("github:acme/app"));
    assert_eq!(
        entries[0].repositories,
        vec![ProjectListRepository { key: "repo-a".to_string(), slug: text("acme/app"), subpaths: texts(&["api", "web"]) }]
    );
}

#[test]
fn advertised_providers_are_added_where_none_was_found() {
    let provider = |category: &str, implementation: &str, healthy: bool| HostProvider {
        category: category.to_string(),
        implementation: implementation.to_string(),
        name: implementation.to_string(),
        healthy,
    };
    let all = host_providers(
        vec![provider("pool", "shpool", false)],
        &vec![provider("pool", "shpool", true), provider("agent", "codex", true)],
    );
    assert_eq!(all, vec![provider("agent", "codex", true), provider("pool", "shpool", false)]);
}

#[test]
fn repositories_are_listed_with_their_keys() {
    let mut registry = RepoRegistry::new();
    let identity = RepoIdentity { authority: "github.com".to_string(), path: "acme/app".to_string() };
    registry.track("/work/app", &identity, &text("repo-a"));
    let providers = || vec![ProviderNames { category: "code_review".to_string(), names: texts(&["GitHub"]) }];
    let details = vec![RepoDetails {
        preferred_path: "/work/app".to_string(),
        name: "app".to_string(),
        labels: vec![("change_request".to_string(), "Pull request".to_string())],
        provider_names: providers(),
        slug: text("acme/app"),
        unmet_requirements: vec![("pool".to_string(), "binary shpool".to_string())],
    }];
    let standing = get_status(&details);
    assert_eq!(standing.len(), 1);
    assert_eq!(standing[0].path, "/work/app");
    assert_eq!(standing[0].slug, text("acme/app"));
    assert!(standing[0].provider_health.is_empty());
    assert_eq!(standing[0].unmet_requirements, vec![("pool".to_string(), "binary shpool".to_string())]);
    let repos = list_repos(&registry, &details);
    assert_eq!(repos.len(), 1);
    assert_eq!(repos[0].repository_key, text("repo-a"));
    assert_eq!(repos[0].identity, identity);
    assert_eq!(repos[0].labels, vec![("change_request".to_string(), "Pull request".to_string())]);
    assert_eq!(repos[0].provider_names, providers());
    assert!(repos[0].provider_health.is_empty() && !repos[0].loading);
    let at = |path: &str| RepoSelector::Path { path: path.to_string() };
    assert_eq!(providers_of(&registry, &at("/work/app")), Ok(0));
    assert_eq!(providers_of(&registry, &at("/work/other")), Err("repo not tracked: /work/other".to_string()));
    let found = RepoSelector::Query { resolved: Ok("/gone".to_string()) };
    assert_eq!(providers_of(&registry, &found), Err("repo not found: /gone".to_string()));
    assert_eq!(
        provider_infos(&vec![("code_review".to_string(), "GitHub".to_string())]),
        vec![ProviderInfo { category: "code_review".to_string(), name: "GitHub".to_string(), healthy: true, disabled_reason: None }]
    );
}

#[test]
fn a_checkout_is_inspected_before_it_is_adopted() {
    let mut request = AdoptRequest { path: "/link/app".to_string(), repository_url: text("https://host/app"), git_ref: text("main") };
    let found = CheckoutInspection {
        repo_ref: "repo-b".to_string(),
        path: "/work/app".to_string(),
        host_ref: "host-1".to_string(),
        git_ref: "next".to_string(),
        is_main: false,
        transport_url: None,
    };
    let mut rd = AdoptReadings { url_is_remote: true, canonical: None, configured: None, local_host: None, inspected: None };
    assert_eq!(inspect_adopted_checkout(&request, &rd), AdoptStep::AskCanonical);
    rd.canonical = Some(Err("gone".to_string()));
    assert_eq!(
        inspect_adopted_checkout(&request, &rd),
        AdoptStep::Refuse { message: "adopted checkout path /link/app cannot be resolved: gone".to_string() }
    );
    rd.canonical = Some(Ok("/work/app".to_string()));
    assert_eq!(inspect_adopted_checkout(&request, &rd), AdoptStep::AskConfigured { path: "/work/app".to_string() });
    rd.configured = Some(Ok("repo-a".to_string()));
    assert_eq!(
        inspect_adopted_checkout(&request, &rd),
        AdoptStep::Refuse { message: "local Host identity is unavailable".to_string() }
    );
    rd.local_host = text("host-1");
    let told = CheckoutInspection {
        repo_ref: "repo-a".to_string(),
        path: "/work/app".to_string(),
        host_ref: "host-1".to_string(),
        git_ref: "main".to_string(),
        is_main: true,
        transport_url: text("https://host/app"),
    };
    assert_eq!(inspect_adopted_checkout(&request, &rd), AdoptStep::Inspected { inspection: told.copy() });
    request.git_ref = None;
    assert_eq!(inspect_adopted_checkout(&request, &rd), AdoptStep::AskInspection);
    rd.inspected = Some(Ok(found.copy()));
    assert_eq!(inspect_adopted_checkout(&request, &rd), AdoptStep::Inspected { inspection: found.copy() });
    assert_eq!(
        adopted_record("convoy-1", &found, &None, &Ok("/work/app".to_string())),
        Err("an adopted checkout requires a repository transport URL".to_string())
    );
    let record = adopted_record("convoy-1", &told, &text("next"), &Ok("/work/app".to_string())).expect("a record");
    assert_eq!(record.name, "adopted-checkout-convoy-1");
    assert_eq!(record.convoy, "convoy-1");
    assert_eq!(record.git_ref, "next");
    assert!(!record.is_main);
    assert_eq!(record.repository_url, "https://host/app");
    assert_eq!(
        adopted_record("convoy-1", &told, &None, &Err("gone".to_string())),
        Err("adopted checkout path /work/app cannot be resolved: gone".to_string())
    );
    assert_eq!(adopted_publication(&PublishOutcome::Failed { error: "later".to_string() }), Ok(()));
    assert_eq!(adopted_publication(&PublishOutcome::Published), Ok(()));
    assert_eq!(adopted_publication(&PublishOutcome::Invalid { message: "bad".to_string() }), Err("bad".to_string()));
}

#[test]
fn configuration_keeps_the_canonical_remote() {
    assert_eq!(check_configured_repository("/work/app", 1, "repo-a", "repo-b"), Ok(()));
    assert_eq!(check_configured_repository("/work/app", 2, "repo-a", "repo-a"), Ok(()));
    assert_eq!(
        check_configured_repository("/work/app", 2, "repo-a", "repo-b"),
        Err("repository config for /work/app changes the canonical remote of an existing declaration".to_string())
    );
}

#[test]
fn a_batch_needs_its_repository() {
    let mut registry = RepoRegistry::new();
    let identity = RepoIdentity { authority: "github.com".to_string(), path: "acme/app".to_string() };
    assert_eq!(batch_repository(&registry, &identity, "github.com/acme/app"), Err("repo not tracked locally: github.com/acme/app".to_string()));
    registry.track("/work/app", &identity, &None);
    assert_eq!(batch_repository(&registry, &identity, "github.com/acme/app"), Ok(0));
}
