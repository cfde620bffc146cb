use flotilla_core::naming::{
    adopted_checkout_name, char_is_alnum, char_lower, convoy_fallback_slug, convoy_issue_name_context, convoy_issues_fallback_slug,
    convoy_record_name, normalize_project_name, project_not_ready_error, project_target_syntax, required_admission_value,
    resolve_project_ref, valid_agent_override_token, validate_convoy_branch, validate_convoy_name, validate_project_name, NamedIssue,
    ProjectTargetSyntax, ReadFailure, ViewAddressReading,
};

fn issue(id: &str, title: &str, body: Option<&str>) -> NamedIssue {
    NamedIssue { id: id.to_string(), title: title.to_string(), body: body.map(str::to_string) }
}

#[test]
fn characters_are_classified_as_ascii() {
    assert!(char_is_alnum('a') && char_is_alnum('Z') && char_is_alnum('7'));
    assert!(!char_is_alnum('-') && !char_is_alnum('\u{e9}'));
    assert_eq!(char_lower('Q'), 'q');
    assert_eq!(char_lower('\u{c9}'), '\u{c9}');
}

#[test]
fn project_names_are_normalized() {
    assert_eq!(normalize_project_name("My  Project!!"), Ok("my-project".to_string()));
    assert_eq!(normalize_project_name("--Flotilla--"), Ok("flotilla".to_string()));
    assert_eq!(normalize_project_name(" !? "), Err("project name must contain an alphanumeric character".to_string()));
}

#[test]
fn a_normalized_project_name_is_valid() {
    let normalized = normalize_project_name("My Project").expect("a name");
    assert_eq!(validate_project_name(&normalized), Ok(()));
    assert_eq!(
        validate_project_name("My Project"),
        Err("project name `My Project` is invalid; use `my-project`".to_string())
    );
    assert_eq!(validate_project_name("--"), Err("project name must contain an alphanumeric character".to_string()));
}

#[test]
fn project_targets_are_told_apart_by_their_shape() {
    assert_eq!(project_target_syntax("./app"), ProjectTargetSyntax::ExplicitPath);
    assert_eq!(project_target_syntax("/work/app"), ProjectTargetSyntax::ExplicitPath);
    assert_eq!(project_target_syntax("../app"), ProjectTargetSyntax::ExplicitPath);
    assert_eq!(project_target_syntax("acme/app"), ProjectTargetSyntax::QualifiedSlug);
    assert_eq!(project_target_syntax("app"), ProjectTargetSyntax::Ambiguous);
}

#[test]
fn values_are_trimmed_and_required() {
    assert_eq!(required_admission_value("  app ", "project"), Ok("app".to_string()));
    assert_eq!(required_admission_value("   ", "project"), Err("project cannot be empty".to_string()));
}

#[test]
fn project_references_name_a_namespace() {
    let other = || ViewAddressReading::Other { kind: "convoy".to_string() };
    let pair = |a: &str, b: &str| Ok((a.to_string(), b.to_string()));
    assert_eq!(resolve_project_ref("flotilla", "app", "flotilla://", &other()), pair("flotilla", "app"));
    assert_eq!(resolve_project_ref("flotilla", "acme/app", "flotilla://", &other()), pair("acme", "app"));
    let read = ViewAddressReading::Project { namespace: "acme".to_string(), name: "app".to_string() };
    assert_eq!(resolve_project_ref("flotilla", "project/acme/app", "flotilla://", &read), pair("acme", "app"));
    assert_eq!(resolve_project_ref("flotilla", "project/app", "flotilla://", &other()), pair("project", "app"));
    assert_eq!(
        resolve_project_ref("flotilla", "a/b/c/d", "flotilla://", &other()),
        Err("invalid project reference a/b/c/d: expected <name>, <namespace>/<name>, or project/<namespace>/<name>".to_string())
    );
    assert_eq!(
        resolve_project_ref("flotilla", "flotilla://x", "flotilla://", &other()),
        Err("invalid project reference flotilla://x: expected a project address, got convoy".to_string())
    );
    assert_eq!(
        resolve_project_ref(
            "flotilla",
            "flotilla://x",
            "flotilla://",
            &ViewAddressReading::Project { namespace: "acme".to_string(), name: "app".to_string() }
        ),
        pair("acme", "app")
    );
    assert_eq!(
        resolve_project_ref("flotilla", "flotilla://x", "flotilla://", &ViewAddressReading::Invalid { error: "bad".to_string() }),
        Err("invalid project reference flotilla://x: bad".to_string())
    );
    assert_eq!(resolve_project_ref("flotilla", " ", "flotilla://", &other()), Err("project cannot be empty".to_string()));
}

#[test]
fn a_project_that_cannot_be_read_is_not_ready() {
    assert_eq!(
        project_not_ready_error("flotilla", "app", &ReadFailure::NotFound { name: "app".to_string() }),
        "project flotilla/app is not ready: resource not found: app (tried flotilla/app)"
    );
    assert_eq!(
        project_not_ready_error("flotilla", "app", &ReadFailure::Other { message: "down".to_string() }),
        "project app is not ready: down"
    );
}

#[test]
fn override_tokens_hold_plain_characters() {
    assert!(valid_agent_override_token("gpt-5.1_codex"));
    assert!(!valid_agent_override_token(""));
    assert!(!valid_agent_override_token("a b"));
    assert!(!valid_agent_override_token("a;b"));
}

#[test]
fn convoy_names_are_dns_labels() {
    assert_eq!(validate_convoy_name("fix-42"), Ok(()));
    assert_eq!(validate_convoy_name(&"a".repeat(63)), Ok(()));
    for name in ["", "-a", "a-", "A", "a_b", &"a".repeat(64)] {
        assert_eq!(
            validate_convoy_name(name),
            Err(format!("convoy name `{name}` must be a lowercase DNS label of at most 63 characters"))
        );
    }
}

#[test]
fn convoy_branches_are_git_branch_names() {
    for branch in ["main", "feature/one", "a.b"] {
        assert_eq!(validate_convoy_branch(branch), Ok(()));
    }
    for branch in ["", "@", "-a", "refs/heads/a", "a.", "a..b", "a@{b", "a//b", "/a", "a/", ".a/b", "a.lock", "a b", "a~b", "a:b", "a\\b"] {
        assert_eq!(validate_convoy_branch(branch), Err(format!("branch `{branch}` is not a valid git branch name")));
    }
}

#[test]
fn fallback_slugs_fit_a_convoy_name() {
    assert_eq!(convoy_fallback_slug("Fix the Thing!", "42"), "fix-the-thing-42");
    assert_eq!(convoy_fallback_slug("!!", "??"), "convoy");
    let long = convoy_fallback_slug("A very long issue title that goes well beyond what a DNS label can hold", "42");
    assert_eq!(long, "a-very-long-issue-title-that-goes-well-beyond-what-a-d-36336eee");
    assert_eq!(validate_convoy_name(&long), Ok(()));
}

#[test]
fn several_issues_share_one_slug() {
    assert_eq!(convoy_issues_fallback_slug(&vec![], "My App", "app"), "my-app-app");
    assert_eq!(convoy_issues_fallback_slug(&vec![issue("7", "One", None)], "My App", "app"), "one-7");
    assert_eq!(convoy_issues_fallback_slug(&vec![issue("7", "One", None), issue("8", "Two", None)], "My App", "app"), "batch-issues-7-8");
}

#[test]
fn issues_are_described_by_id_title_and_body() {
    assert_eq!(convoy_issue_name_context(&issue("7", "One", Some("Body"))), "Issue 7: One\nBody");
    assert_eq!(convoy_issue_name_context(&issue("7", "One", None)), "Issue 7: One\n");
}

#[test]
fn adopted_checkouts_are_named_after_their_convoy() {
    assert_eq!(adopted_checkout_name("fix-42"), "adopted-checkout-fix-42");
}

#[test]
fn record_names_are_fresh() {
    let first = convoy_record_name();
    let second = convoy_record_name();
    assert_ne!(first, second);
    assert!(first.starts_with("convoy-"));
    assert_eq!(first.len(), "convoy-".len() + 32);
    assert_eq!(first.chars().nth(19), Some('4'));
    assert!(first.chars().nth(23).is_some_and(|digit| "89ab".contains(digit)));
    assert_eq!(validate_convoy_name(&first), Ok(()));
}
