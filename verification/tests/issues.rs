use flotilla_core::admission::IssueSelector;
use flotilla_core::change_requests::{
    check_repository_issues, issue_sources, resolve_convoy_issue, ForgedRepository, IssueReadings, IssueSource, IssueStep, SourcesReading,
};
use flotilla_core::repos::{RepoIdentity, RepoRegistry};

fn source(scope: &str) -> IssueSource {
    IssueSource { service: "github.com".to_string(), scope: scope.to_string() }
}

fn refusal(message: &str) -> IssueStep {
    IssueStep::Refuse { message: message.to_string() }
}

#[test]
fn a_project_without_issues_says_so() {
    assert_eq!(issue_sources("fleet", &SourcesReading::NoSource), Err("project fleet has no issue source".to_string()));
    assert_eq!(
        issue_sources(
            "fleet",
            &SourcesReading::RepositoryUnavailable { repository: "repo-a".to_string(), message: "gone".to_string() }
        ),
        Err("repository repo-a: gone".to_string())
    );
    assert_eq!(issue_sources("fleet", &SourcesReading::Available { sources: vec![source("a")] }), Ok(&vec![source("a")]));
}

#[test]
fn an_issue_is_found_where_it_is_known_once() {
    let selector = IssueSelector::Id { id: "7".to_string() };
    let mut rd = IssueReadings { sources: None, replies: None, repositories: None };
    assert_eq!(resolve_convoy_issue("fleet", &selector, &rd), IssueStep::AskSources);
    rd.sources = Some(SourcesReading::Available { sources: vec![source("a"), source("b")] });
    assert_eq!(
        resolve_convoy_issue("fleet", &selector, &rd),
        IssueStep::AskIssue { sources: vec![source("a"), source("b")], id: "7".to_string() }
    );
    rd.replies = Some(vec![Err("no such issue".to_string()), Ok(())]);
    assert_eq!(resolve_convoy_issue("fleet", &selector, &rd), IssueStep::AskRepositories);
    rd.repositories = Some(Ok(vec![
        ForgedRepository { repo: "repo-a".to_string(), forge: Some(source("a")) },
        ForgedRepository { repo: "repo-b".to_string(), forge: Some(source("b")) },
    ]));
    assert_eq!(
        resolve_convoy_issue("fleet", &selector, &rd),
        IssueStep::Resolved { at: 1, repository_ref: Some("repo-b".to_string()) }
    );
    rd.replies = Some(vec![Ok(()), Ok(())]);
    assert_eq!(resolve_convoy_issue("fleet", &selector, &rd), refusal("issue 7 is ambiguous across 2 project issue sources"));
    rd.replies = Some(vec![Err("x".to_string()), Err("y".to_string())]);
    assert_eq!(resolve_convoy_issue("fleet", &selector, &rd), refusal("issue 7 was not found for project fleet: x; y"));
}

#[test]
fn a_referenced_issue_must_come_from_the_project() {
    let selector = IssueSelector::Reference { service: "github.com".to_string(), scope: "c".to_string(), id: "7".to_string() };
    let mut rd = IssueReadings {
        sources: Some(SourcesReading::Available { sources: vec![source("a")] }),
        replies: None,
        repositories: None,
    };
    assert_eq!(
        resolve_convoy_issue("fleet", &selector, &rd),
        refusal("issue source github.com c is not part of project fleet")
    );
    let selector = IssueSelector::Reference { service: "github.com".to_string(), scope: "a".to_string(), id: "7".to_string() };
    assert_eq!(
        resolve_convoy_issue("fleet", &selector, &rd),
        IssueStep::AskIssue { sources: vec![source("a")], id: "7".to_string() }
    );
    rd.replies = Some(vec![Err("issue 7 snapshot is too stale to admit".to_string())]);
    assert_eq!(resolve_convoy_issue("fleet", &selector, &rd), refusal("issue 7 snapshot is too stale to admit"));
    rd.replies = Some(vec![Ok(())]);
    rd.repositories = Some(Err("repository repo-a: gone".to_string()));
    assert_eq!(resolve_convoy_issue("fleet", &selector, &rd), refusal("repository repo-a: gone"));
    rd.repositories = Some(Ok(vec![ForgedRepository { repo: "repo-a".to_string(), forge: None }]));
    assert_eq!(
        resolve_convoy_issue("fleet", &selector, &rd),
        IssueStep::Resolved { at: 0, repository_ref: Some("repo-a".to_string()) }
    );
}

#[test]
fn issues_are_asked_for_where_a_provider_serves_them() {
    let mut registry = RepoRegistry::new();
    assert_eq!(check_repository_issues(&registry, "/work/app", &source("a"), true), Err("no tracked repo for path".to_string()));
    registry.track("/work/app", &RepoIdentity { authority: "github.com".to_string(), path: "a".to_string() }, &None);
    assert_eq!(check_repository_issues(&registry, "/work/app", &source("a"), true), Ok(()));
    assert_eq!(
        check_repository_issues(&registry, "/work/app", &source("a"), false),
        Err("no issue provider available for github.com a".to_string())
    );
}
