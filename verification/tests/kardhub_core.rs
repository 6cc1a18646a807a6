use kardhub::kardhub::auth::{
    build_auth_url, interpret_device_poll, interpret_token_response, scope_string, AuthError,
    DevicePollResponse, OAuthConfig, PkceChallenge, TokenResponse,
};
use kardhub::kardhub::github::{
    ci_status_from, closed_pr_from, needs_ci_status, exclude_archived, issue_update_fields, issues_from, merge_members,
    page_url, rest_response_error, search_path, wasm_response_error, GhCombinedStatus, GhIssue, GhLabel,
    GhPrHead, GhPullRequest, GhRepo, GhRepoOwner, GhReview, GhUser, GitHubError, IssueUpdate, PayloadValue,
};
use kardhub::kardhub::models::{CiStatus, IssueState, Priority, Repository, Review, ReviewState, User};

// ── models ──────────────────────────────────────────────────────────

#[test]
fn models_priority_parses_valid_labels() {
    assert_eq!(Priority::from_label("#1"), Some(Priority(1)));
    assert_eq!(Priority::from_label("#6"), Some(Priority(6)));
    assert_eq!(kardhub::cardman::models::Priority::from_label("#1"), Some(kardhub::cardman::models::Priority(1)));
    assert_eq!(kardhub::cardman::models::Priority::from_label("#6"), Some(kardhub::cardman::models::Priority(6)));
}

#[test]
fn models_priority_rejects_invalid_labels() {
    assert_eq!(Priority::from_label("#0"), None);
    assert_eq!(Priority::from_label("#7"), None);
    assert_eq!(Priority::from_label("bug"), None);
    assert_eq!(Priority::from_label("#"), None);
    assert_eq!(Priority::from_label(""), None);
    assert_eq!(kardhub::cardman::models::Priority::from_label("#0"), None);
    assert_eq!(kardhub::cardman::models::Priority::from_label("#7"), None);
    assert_eq!(kardhub::cardman::models::Priority::from_label("bug"), None);
    assert_eq!(kardhub::cardman::models::Priority::from_label("#"), None);
    assert_eq!(kardhub::cardman::models::Priority::from_label(""), None);
}

#[test]
fn models_priority_ordering() {
    // Lower number = higher priority = sorts first
    assert!(Priority(1) < Priority(2));
    assert!(Priority(1) < Priority(6));
    assert!(kardhub::cardman::models::Priority(1) < kardhub::cardman::models::Priority(2));
    assert!(kardhub::cardman::models::Priority(1) < kardhub::cardman::models::Priority(6));
}

#[test]
fn priority_label_must_be_exact() {
    assert_eq!(Priority::from_label("#12"), None);
    assert_eq!(Priority::from_label(" #1"), None);
    assert_eq!(Priority::from_label("#1 "), None);
    assert_eq!(Priority::from_label("#3"), Some(Priority(3)));
    assert_eq!(Priority::from_label("#+3"), None);
    assert_eq!(Priority::from_label("#03"), None);
    assert_eq!(Priority::from_label("#٣"), None);
    assert_eq!(kardhub::cardman::models::Priority::from_label("#+3"), None);
    assert_eq!(kardhub::cardman::models::Priority::from_label("#03"), None);
    assert_eq!(kardhub::cardman::models::Priority::from_label("#5"), Some(kardhub::cardman::models::Priority(5)));
}

#[test]
fn ci_is_skipped_when_changes_were_requested() {
    let review = |login: &str, state: ReviewState| Review {
        user: User { login: login.into(), avatar_url: String::new() },
        state,
    };
    assert!(!needs_ci_status(&vec![]));
    assert!(needs_ci_status(&vec![review("a", ReviewState::Approved), review("b", ReviewState::Commented)]));
    assert!(!needs_ci_status(&vec![review("a", ReviewState::Approved), review("b", ReviewState::ChangesRequested)]));
    assert!(!needs_ci_status(&vec![review("b", ReviewState::ChangesRequested)]));
}

// ── auth ────────────────────────────────────────────────────────────

#[test]
fn build_auth_url_without_pkce() {
    let config = OAuthConfig {
        client_id: "test_id".into(),
        scopes: vec!["repo".into()],
    };
    let url = build_auth_url(&config, "https://example.com/callback", "random_state", None);
    assert!(url.contains("client_id=test_id"));
    assert!(url.contains("state=random_state"));
    assert!(!url.contains("code_challenge"));
}

#[test]
fn build_auth_url_with_pkce() {
    let config = OAuthConfig {
        client_id: "test_id".into(),
        scopes: vec!["repo".into()],
    };
    let pkce = PkceChallenge {
        verifier: "verifier123".into(),
        challenge: "challenge_hash".into(),
    };
    let url = build_auth_url(&config, "https://example.com/callback", "state1", Some(&pkce));
    assert!(url.contains("code_challenge=challenge_hash"));
    assert!(url.contains("code_challenge_method=S256"));
}

#[test]
fn auth_error_display() {
    assert_eq!(AuthError::AccessDenied.to_string(), "access denied by user");
    assert_eq!(AuthError::ExpiredToken.to_string(), "device code expired");
    assert!(AuthError::SlowDown.to_string().contains("slow down"));
}

#[test]
fn auth_url_is_exact() {
    let config = OAuthConfig {
        client_id: "cid".into(),
        scopes: vec!["repo".into(), "read:org".into()],
    };
    let url = build_auth_url(&config, "https://x/cb", "st", None);
    assert_eq!(
        url,
        "https://github.com/login/oauth/authorize?client_id=cid&redirect_uri=https://x/cb&scope=repo read:org&state=st"
    );
    assert_eq!(scope_string(&config), "repo read:org");
}

#[test]
fn device_poll_outcomes() {
    let pending = DevicePollResponse {
        access_token: None,
        token_type: None,
        scope: None,
        error: Some("authorization_pending".into()),
    };
    assert!(matches!(interpret_device_poll(pending), Err(AuthError::AuthorizationPending)));
    let slow = DevicePollResponse {
        access_token: None,
        token_type: None,
        scope: None,
        error: Some("slow_down".into()),
    };
    assert!(matches!(interpret_device_poll(slow), Err(AuthError::SlowDown)));
    let expired = DevicePollResponse {
        access_token: None,
        token_type: None,
        scope: None,
        error: Some("expired_token".into()),
    };
    assert!(matches!(interpret_device_poll(expired), Err(AuthError::ExpiredToken)));
    let denied = DevicePollResponse {
        access_token: None,
        token_type: None,
        scope: None,
        error: Some("access_denied".into()),
    };
    assert!(matches!(interpret_device_poll(denied), Err(AuthError::AccessDenied)));
    let other = DevicePollResponse {
        access_token: None,
        token_type: None,
        scope: None,
        error: Some("weird".into()),
    };
    match interpret_device_poll(other) {
        Err(AuthError::GitHub(m)) => assert_eq!(m, "weird"),
        _ => panic!("expected a GitHub error"),
    }
    let empty = DevicePollResponse {
        access_token: None,
        token_type: None,
        scope: None,
        error: None,
    };
    match interpret_device_poll(empty) {
        Err(AuthError::GitHub(m)) => assert_eq!(m, "unexpected empty response"),
        _ => panic!("expected a GitHub error"),
    }
    let granted = DevicePollResponse {
        access_token: Some("gho_x".into()),
        token_type: None,
        scope: None,
        error: None,
    };
    let token = interpret_device_poll(granted).ok().unwrap();
    assert_eq!(token.access_token, "gho_x");
    assert_eq!(token.token_type, "bearer");
    assert_eq!(token.scope, "");
}

#[test]
fn token_exchange_outcomes() {
    let granted = TokenResponse {
        access_token: Some("gho_y".into()),
        token_type: Some("bearer".into()),
        scope: Some("repo".into()),
        error: None,
        error_description: None,
    };
    let token = interpret_token_response(granted).ok().unwrap();
    assert_eq!(token.access_token, "gho_y");
    assert_eq!(token.scope, "repo");
    let refused = TokenResponse {
        access_token: None,
        token_type: None,
        scope: None,
        error: Some("bad_verification_code".into()),
        error_description: Some("The code passed is incorrect".into()),
    };
    assert!(interpret_token_response(refused).is_err());
}

// ── github ──────────────────────────────────────────────────────────

fn gh_user(login: &str) -> GhUser {
    GhUser {
        login: login.into(),
        avatar_url: String::new(),
    }
}

#[test]
fn gh_user_converts_to_domain() {
    let gh = GhUser {
        login: "octocat".into(),
        avatar_url: "https://example.com/avatar.png".into(),
    };
    let user: User = gh.into();
    assert_eq!(user.login, "octocat");
    assert_eq!(user.avatar_url, "https://example.com/avatar.png");
}

#[test]
fn gh_repo_converts_to_domain() {
    let gh = GhRepo {
        name: "hello-world".into(),
        archived: false,
        default_branch: "main".into(),
        owner: GhRepoOwner {
            login: "octocat".into(),
            owner_type: "User".into(),
        },
    };
    let repo: Repository = gh.into();
    assert_eq!(repo.owner, "octocat");
    assert_eq!(repo.owner_type, "User");
    assert_eq!(repo.name, "hello-world");
    assert!(!repo.archived);
}

#[test]
fn exclude_archived_filters_correctly() {
    let repos = vec![
        GhRepo {
            name: "active".into(),
            archived: false,
            default_branch: "main".into(),
            owner: GhRepoOwner {
                login: "user".into(),
                owner_type: "User".into(),
            },
        },
        GhRepo {
            name: "old".into(),
            archived: true,
            default_branch: "main".into(),
            owner: GhRepoOwner {
                login: "user".into(),
                owner_type: "User".into(),
            },
        },
    ];
    let result = exclude_archived(repos);
    assert_eq!(result.len(), 1);
    assert_eq!(result[0].name, "active");
}

#[test]
fn gh_review_converts_states() {
    let cases = vec![
        ("APPROVED", ReviewState::Approved),
        ("CHANGES_REQUESTED", ReviewState::ChangesRequested),
        ("COMMENTED", ReviewState::Commented),
        ("DISMISSED", ReviewState::Dismissed),
        ("PENDING", ReviewState::Pending),
        ("unknown", ReviewState::Pending),
    ];
    for (raw, expected) in cases {
        let review = GhReview {
            user: GhUser {
                login: "test".into(),
                avatar_url: String::new(),
            },
            state: raw.into(),
        };
        let domain: Review = review.into();
        assert_eq!(domain.state, expected, "failed for state '{raw}'");
    }
}

#[test]
fn github_error_display() {
    let err = GitHubError::RateLimit(1700000000);
    assert!(err.to_string().contains("rate limit"));
    let err = GitHubError::NotFound("repo".into());
    assert!(err.to_string().contains("not found"));
}

#[test]
fn github_error_messages_are_exact() {
    assert_eq!(
        GitHubError::RateLimit(1700000000).to_string(),
        "rate limit exceeded, resets at 1700000000"
    );
    assert_eq!(GitHubError::NotFound("repo".into()).to_string(), "not found: repo");
    assert_eq!(GitHubError::Http("boom".into()).to_string(), "HTTP error: boom");
}

#[test]
fn issue_update_default_omits_assignees() {
    let update = IssueUpdate::default();
    assert!(update.assignees.is_none());
    assert!(update.title.is_none());
    assert!(update.body.is_none());
    assert!(update.state.is_none());
    assert!(update.labels.is_none());
}

#[test]
fn issue_update_serializes_assignees() {
    let update = IssueUpdate {
        assignees: Some(vec!["octocat".to_string()]),
        ..Default::default()
    };
    assert_eq!(update.assignees.as_ref().unwrap(), &vec!["octocat".to_string()]);
}

#[test]
fn issue_update_payload_holds_only_set_fields() {
    let update = IssueUpdate {
        state: Some(IssueState::Closed),
        assignees: Some(vec!["octocat".to_string()]),
        ..Default::default()
    };
    let fields = issue_update_fields(&update);
    assert_eq!(fields.len(), 2);
    assert_eq!(fields[0].0, "state");
    assert_eq!(fields[0].1, PayloadValue::Text("closed".into()));
    assert_eq!(fields[1].0, "assignees");
    assert_eq!(fields[1].1, PayloadValue::List(vec!["octocat".to_string()]));
    assert!(issue_update_fields(&IssueUpdate::default()).is_empty());
}

#[test]
fn gh_issue_filters_pr_field() {
    let issue = GhIssue {
        number: 1,
        title: "Bug fix".into(),
        body: None,
        labels: vec![],
        assignees: vec![],
        state: "open".into(),
        updated_at: 1_704_067_200,
        user: gh_user("author"),
        pull_request: true,
    };
    let real = GhIssue {
        number: 2,
        title: "Real issue".into(),
        body: Some("text".into()),
        labels: vec![GhLabel {
            name: "#2".into(),
            color: "ff0000".into(),
        }],
        assignees: vec![gh_user("alice")],
        state: "closed".into(),
        updated_at: 1_704_067_200,
        user: gh_user("author"),
        pull_request: false,
    };
    let issues = issues_from(vec![issue, real]);
    assert_eq!(issues.len(), 1);
    assert_eq!(issues[0].number, 2);
    assert_eq!(issues[0].state, IssueState::Closed);
    assert_eq!(issues[0].assignees, vec!["alice".to_string()]);
    assert_eq!(issues[0].author, "author");
}

#[test]
fn ci_status_maps_combined_states() {
    let s = |x: &str| GhCombinedStatus { state: x.into() };
    assert_eq!(ci_status_from(&s("success")), CiStatus::Success);
    assert_eq!(ci_status_from(&s("failure")), CiStatus::Failure);
    assert_eq!(ci_status_from(&s("error")), CiStatus::Failure);
    assert_eq!(ci_status_from(&s("pending")), CiStatus::Pending);
}

#[test]
fn closed_pr_is_merged_or_closed() {
    let pr = GhPullRequest {
        number: 5,
        title: "Old".into(),
        body: None,
        state: "closed".into(),
        merged_at: None,
        draft: false,
        user: gh_user("dev"),
        assignees: vec![],
        requested_reviewers: vec![],
        head: GhPrHead {
            branch_ref: "feature/x".into(),
        },
        labels: vec![],
        updated_at: 10,
    };
    let closed = closed_pr_from(pr.clone());
    assert!(closed.closed);
    assert!(!closed.merged);
    assert_eq!(closed.assignees, vec!["dev".to_string()]);
    let mut merged_pr = pr;
    merged_pr.merged_at = Some(5);
    let merged = closed_pr_from(merged_pr);
    assert!(merged.merged);
    assert!(!merged.closed);
}

#[test]
fn members_merge_keeps_members_first() {
    let all = merge_members(
        vec![gh_user("alice"), gh_user("bob")],
        vec![gh_user("bob"), gh_user("carol")],
    );
    let logins: Vec<&str> = all.iter().map(|u| u.login.as_str()).collect();
    assert_eq!(logins, vec!["alice", "bob", "carol"]);
}

#[test]
fn page_urls_add_paging() {
    assert_eq!(page_url("/user/repos", 2), "/user/repos?per_page=100&page=2");
    assert_eq!(page_url("/user/repos?type=all", 1), "/user/repos?type=all&per_page=100&page=1");
}

#[test]
fn response_errors_by_status() {
    assert!(rest_response_error(200, None, None, "200 OK", "ok".into()).is_none());
    match rest_response_error(403, Some("1700000000"), Some("0"), "403 Forbidden", "x".into()) {
        Some(GitHubError::RateLimit(t)) => assert_eq!(t, 1700000000),
        _ => panic!("expected a rate limit"),
    }
    match rest_response_error(401, None, None, "401 Unauthorized", "bad".into()) {
        Some(GitHubError::Auth(m)) => assert_eq!(m, "bad"),
        _ => panic!("expected an auth error"),
    }
    match rest_response_error(404, None, None, "404 Not Found", "gone".into()) {
        Some(GitHubError::NotFound(m)) => assert_eq!(m, "gone"),
        _ => panic!("expected not found"),
    }
    match rest_response_error(500, None, None, "500 Internal Server Error", "oops".into()) {
        Some(GitHubError::Http(m)) => assert_eq!(m, "500 Internal Server Error: oops"),
        _ => panic!("expected an HTTP error"),
    }
    match wasm_response_error(502, "bad gateway".into()) {
        Some(GitHubError::Http(m)) => assert_eq!(m, "502: bad gateway"),
        _ => panic!("expected an HTTP error"),
    }
}

#[test]
fn search_path_encodes_query() {
    let p = search_path("repo:org/x is:issue bug");
    assert!(p.starts_with("/search/issues?q="));
    assert!(!p.contains(' '));
}
