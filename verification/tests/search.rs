use gira::cli::{issue_validator, Command};
use gira::commands::{
    list_action, resolve_unique, search_args_for, start_action, GiraError, ListAction, Resolution,
    StartAction,
};
use gira::jira::{classify, search_url, Issue, JiraSearchOutput, SearchArgs, SearchOutcome};

fn issue(key: &str, title: &str) -> Issue {
    Issue { key: key.to_string(), title: title.to_string() }
}

#[test]
fn jql_of_empty_filters_is_empty() {
    assert_eq!(SearchArgs::default().jql_query(), "");
}

#[test]
fn jql_joins_project_and_id_in_order() {
    let args = SearchArgs {
        project: Some("X".to_string()),
        id: Some("CLOUD-1".to_string()),
        ..Default::default()
    };
    assert_eq!(args.jql_query(), "project='X'AND id='CLOUD-1'");
}

#[test]
fn jql_renders_all_fields_in_fixed_order() {
    let args = SearchArgs {
        project: Some("P".to_string()),
        assignee: Some("me@example.com".to_string()),
        id: Some("T-1".to_string()),
        filter: Some("box".to_string()),
    };
    assert_eq!(
        args.jql_query(),
        "project='P'AND assignee='me@example.com'AND id='T-1'AND text ~ 'box'"
    );
}

#[test]
fn jql_of_single_filter_has_no_separator() {
    let args = SearchArgs { filter: Some("box".to_string()), ..Default::default() };
    assert_eq!(args.jql_query(), "text ~ 'box'");
    let args = SearchArgs { id: Some("CLOUD-1".to_string()), ..Default::default() };
    assert_eq!(args.jql_query(), "id='CLOUD-1'");
}

#[test]
fn search_url_omits_empty_query() {
    let url = search_url("http://127.0.0.1:8080", &SearchArgs::default());
    assert_eq!(url, "http://127.0.0.1:8080/rest/api/3/search");
}

#[test]
fn search_url_encodes_the_query() {
    let args = SearchArgs { id: Some("CLOUD-1".to_string()), ..Default::default() };
    let url = search_url("http://tracker.test", &args);
    assert_eq!(url, "http://tracker.test/rest/api/3/search?jql=id%3D%27CLOUD-1%27");
}

#[test]
fn search_url_encodes_spaces_between_clauses() {
    let args = SearchArgs {
        project: Some("X".to_string()),
        id: Some("CLOUD-1".to_string()),
        ..Default::default()
    };
    let url = search_url("http://tracker.test", &args);
    assert_eq!(
        url,
        "http://tracker.test/rest/api/3/search?jql=project%3D%27X%27AND%20id%3D%27CLOUD-1%27"
    );
}

#[test]
fn classify_issues_response() {
    let output = JiraSearchOutput {
        error_messages: None,
        issues: Some(vec![
            issue("CLOUD-2", "test again"),
            issue("CLOUD-1", "test"),
            issue("TEST-1", "Test in Test Project"),
        ]),
    };
    match classify(output) {
        SearchOutcome::Issues(v) => {
            assert_eq!(v.len(), 3);
            assert_eq!(v[0], issue("CLOUD-2", "test again"));
            assert_eq!(v[1], issue("CLOUD-1", "test"));
            assert_eq!(v[2], issue("TEST-1", "Test in Test Project"));
        }
        other => panic!("expected issues, got {:?}", other),
    }
}

#[test]
fn classify_error_response() {
    let output = JiraSearchOutput {
        error_messages: Some(vec!["no permission".to_string()]),
        issues: None,
    };
    match classify(output) {
        SearchOutcome::Errors(msgs) => assert_eq!(msgs, vec!["no permission".to_string()]),
        other => panic!("expected errors, got {:?}", other),
    }
}

#[test]
fn classify_nonexistent_id_error_message() {
    let message = "Issue does not exist or you do not have permission to set it".to_string();
    let output =
        JiraSearchOutput { error_messages: Some(vec![message.clone()]), issues: None };
    match classify(output) {
        SearchOutcome::Errors(msgs) => assert_eq!(msgs, vec![message]),
        other => panic!("expected errors, got {:?}", other),
    }
}

#[test]
fn classify_empty_response() {
    assert!(matches!(classify(JiraSearchOutput::default()), SearchOutcome::Empty));
}

#[test]
fn classify_treats_empty_error_list_as_absent() {
    let output = JiraSearchOutput { error_messages: Some(vec![]), issues: None };
    assert!(matches!(classify(output), SearchOutcome::Empty));
}

#[test]
fn classify_keeps_empty_issue_list() {
    let output = JiraSearchOutput { error_messages: None, issues: Some(vec![]) };
    match classify(output) {
        SearchOutcome::Issues(v) => assert!(v.is_empty()),
        other => panic!("expected issues, got {:?}", other),
    }
}

#[test]
fn classify_prefers_errors_over_issues() {
    let output = JiraSearchOutput {
        error_messages: Some(vec!["boom".to_string()]),
        issues: Some(vec![issue("CLOUD-1", "test")]),
    };
    assert!(matches!(classify(output), SearchOutcome::Errors(_)));
}

#[test]
fn resolve_zero_issues() {
    assert!(matches!(resolve_unique(vec![]), Resolution::NotFound));
}

#[test]
fn resolve_one_issue() {
    match resolve_unique(vec![issue("CLOUD-1", "test")]) {
        Resolution::Unique(i) => assert_eq!(i, issue("CLOUD-1", "test")),
        other => panic!("expected a unique issue, got {:?}", resolution_name(&other)),
    }
}

#[test]
fn resolve_many_issues() {
    let many = vec![issue("CLOUD-1", "test"), issue("CLOUD-2", "test again")];
    match resolve_unique(many) {
        Resolution::Ambiguous(c) => assert_eq!(c.len(), 2),
        other => panic!("expected ambiguity, got {:?}", resolution_name(&other)),
    }
}

fn resolution_name(r: &Resolution) -> &'static str {
    match r {
        Resolution::NotFound => "not found",
        Resolution::Unique(_) => "unique",
        Resolution::Ambiguous(_) => "ambiguous",
    }
}

#[test]
fn start_creates_branch_for_unique_issue() {
    let outcome = SearchOutcome::Issues(vec![issue("CLOUD-1", "Fix login bug")]);
    match start_action(outcome, "CLOUD-1") {
        StartAction::CreateBranch(name) => assert_eq!(name, "CLOUD-1-Fix-login-bug"),
        StartAction::Fail(e) => panic!("expected a branch, got failure: {}", e.message()),
    }
}

#[test]
fn start_fails_not_found_on_zero_issues() {
    match start_action(SearchOutcome::Issues(vec![]), "CLOUD-9") {
        StartAction::Fail(GiraError::NotFound(id)) => assert_eq!(id, "CLOUD-9"),
        _ => panic!("expected a not-found failure"),
    }
    match start_action(SearchOutcome::Empty, "CLOUD-9") {
        StartAction::Fail(GiraError::NotFound(id)) => assert_eq!(id, "CLOUD-9"),
        _ => panic!("expected a not-found failure"),
    }
}

#[test]
fn start_fails_on_ambiguous_matches() {
    let outcome =
        SearchOutcome::Issues(vec![issue("CLOUD-1", "test"), issue("CLOUD-2", "test again")]);
    match start_action(outcome, "CLOUD-1") {
        StartAction::Fail(GiraError::Ambiguous(c)) => assert_eq!(c.len(), 2),
        _ => panic!("expected an ambiguity failure"),
    }
}

#[test]
fn start_surfaces_remote_errors() {
    let outcome = SearchOutcome::Errors(vec!["no permission".to_string()]);
    match start_action(outcome, "CLOUD-1") {
        StartAction::Fail(GiraError::Remote(msgs)) => {
            assert_eq!(msgs, vec!["no permission".to_string()])
        }
        _ => panic!("expected a remote failure"),
    }
}

#[test]
fn validator_accepts_well_formed_id() {
    assert_eq!(issue_validator("CLOUD-1"), Ok("CLOUD-1".to_string()));
    assert_eq!(issue_validator("a-0"), Ok("a-0".to_string()));
}

#[test]
fn validator_rejects_notanid() {
    assert_eq!(
        issue_validator("notanid"),
        Err("Must be of form <team-name>-<id> example: CLOUD-1".to_string())
    );
}

#[test]
fn validator_rejects_malformed_shapes() {
    for bad in ["", "CLOUD", "CLOUD-", "-1", "1-1", "CL2OUD-1", "AB-12-3", "AB-1x", "A B-1"] {
        assert!(issue_validator(bad).is_err(), "accepted {:?}", bad);
    }
}

#[test]
fn list_action_prints_one_line_per_issue() {
    let outcome =
        SearchOutcome::Issues(vec![issue("CLOUD-1", "test"), issue("TEST-1", "Test in Test Project")]);
    match list_action(outcome, "http://tracker.test") {
        ListAction::Print(lines) => {
            assert_eq!(lines.len(), 2);
            assert_eq!(lines[0].text, "CLOUD-1-test");
            assert_eq!(lines[0].url, "http://tracker.test/browse/CLOUD-1");
            assert_eq!(lines[1].text, "TEST-1-Test-in-Test-Project");
            assert_eq!(lines[1].url, "http://tracker.test/browse/TEST-1");
        }
        ListAction::Fail(e) => panic!("expected a listing, got failure: {}", e.message()),
    }
}

#[test]
fn list_action_succeeds_with_empty_listing() {
    match list_action(SearchOutcome::Empty, "http://tracker.test") {
        ListAction::Print(lines) => assert!(lines.is_empty()),
        ListAction::Fail(e) => panic!("expected an empty listing, got failure: {}", e.message()),
    }
}

#[test]
fn list_action_surfaces_remote_errors() {
    let outcome = SearchOutcome::Errors(vec!["no permission".to_string()]);
    assert!(matches!(
        list_action(outcome, "http://tracker.test"),
        ListAction::Fail(GiraError::Remote(_))
    ));
}

#[test]
fn search_args_for_start_sets_only_the_id() {
    let cmd = Command::Start { issue_id: "CLOUD-1".to_string() };
    let args = search_args_for(&cmd, &"me@example.com".to_string()).unwrap();
    assert_eq!(args.id, Some("CLOUD-1".to_string()));
    assert!(args.project.is_none() && args.assignee.is_none() && args.filter.is_none());
}

#[test]
fn search_args_for_list_adds_the_assignee() {
    let cmd = Command::List { project: Some("P".to_string()), filter: None };
    let args = search_args_for(&cmd, &"me@example.com".to_string()).unwrap();
    assert_eq!(args.assignee, Some("me@example.com".to_string()));
    assert_eq!(args.project, Some("P".to_string()));
    assert!(args.id.is_none() && args.filter.is_none());
}

#[test]
fn search_args_for_list_all_leaves_assignee_out() {
    let cmd = Command::ListAll { project: None, filter: Some("box".to_string()) };
    let args = search_args_for(&cmd, &"me@example.com".to_string()).unwrap();
    assert!(args.assignee.is_none() && args.project.is_none() && args.id.is_none());
    assert_eq!(args.filter, Some("box".to_string()));
}

#[test]
fn search_args_for_bump_needs_no_search() {
    assert!(search_args_for(&Command::Bump, &"me@example.com".to_string()).is_none());
}

#[test]
fn remote_error_message_joins_lines() {
    let e = GiraError::Remote(vec!["first".to_string(), "second".to_string()]);
    assert_eq!(e.message(), "failed to get any data from jira:\nfirst\nsecond");
}

#[test]
fn not_found_error_message_names_the_id() {
    let e = GiraError::NotFound("CLOUD-9".to_string());
    assert_eq!(e.message(), "could not find any issues related to id CLOUD-9");
}

#[test]
fn ambiguous_error_message_lists_candidates() {
    let e = GiraError::Ambiguous(vec![issue("CLOUD-1", "test"), issue("CLOUD-2", "test again")]);
    assert_eq!(e.message(), "found more than one issue:\nCLOUD-1-test\nCLOUD-2-test-again");
}

#[test]
fn config_error_message_names_the_key() {
    let e = GiraError::Config("jira.host".to_string());
    assert_eq!(e.message(), "missing configuration key jira.host");
}

#[test]
fn search_args_default_is_empty() {
    let a = SearchArgs::default();
    assert!(a.project.is_none() && a.assignee.is_none() && a.id.is_none() && a.filter.is_none());
}

#[test]
fn search_output_default_is_empty() {
    let o = JiraSearchOutput::default();
    assert!(o.error_messages.is_none() && o.issues.is_none());
}
