use kardhub::kardhub::extension::{
    board_page, classify_repos, column_defs, issue_from_raw, linker_search_query, mapped_cards, page_context,
    page_view, pr_body_with_issues, pr_from_raw, reply_outcome, search_results, token_configured,
    PageView, RawIssue, RawLabel, RawOwner, RawPr, RawRepo, RawUser, SearchItem, SelectedIssue,
};
use kardhub::kardhub::models::{Card, CardSource, CiStatus, Column, IssueState, Priority};

fn raw_user(login: &str) -> RawUser {
    RawUser {
        login: login.into(),
        avatar_url: None,
    }
}

fn raw_repo(name: &str, owner: Option<(&str, &str)>, full: Option<&str>) -> RawRepo {
    RawRepo {
        name: name.into(),
        full_name: full.map(Into::into),
        owner: owner.map(|(login, t)| RawOwner {
            login: login.into(),
            owner_type: t.into(),
        }),
    }
}

#[test]
fn raw_issue_becomes_domain_issue() {
    let raw = RawIssue {
        number: 4,
        title: "Bug".into(),
        body: Some("text".into()),
        labels: vec![RawLabel { name: "#2".into(), color: "f00".into() }],
        assignees: vec![raw_user("alice")],
        state: "open".into(),
        user: Some(raw_user("bob")),
    };
    let issue = issue_from_raw(raw, 77);
    assert_eq!(issue.number, 4);
    assert_eq!(issue.state, IssueState::Open);
    assert_eq!(issue.assignees, vec!["alice".to_string()]);
    assert_eq!(issue.author, "bob");
    assert_eq!(issue.labels[0].name, "#2");
    assert_eq!(issue.updated_at, 77);
    let closed = issue_from_raw(
        RawIssue {
            number: 5,
            title: "x".into(),
            body: None,
            labels: vec![],
            assignees: vec![],
            state: "closed".into(),
            user: None,
        },
        0,
    );
    assert_eq!(closed.state, IssueState::Closed);
    assert_eq!(closed.author, "");
}

#[test]
fn raw_pr_becomes_domain_pr() {
    let raw = RawPr {
        number: 9,
        title: "Feature".into(),
        body: None,
        draft: true,
        labels: vec![],
        assignees: vec![],
        requested_reviewers: vec![raw_user("rev")],
        head_ref: Some("feature/x".into()),
        merged_at: None,
        state: "closed".into(),
        user: Some(raw_user("dev")),
    };
    let pr = pr_from_raw(raw, 1);
    assert!(pr.closed);
    assert!(!pr.merged);
    assert!(pr.draft);
    assert_eq!(pr.assignees, vec!["dev".to_string()]);
    assert_eq!(pr.requested_reviewers, vec!["rev".to_string()]);
    assert_eq!(pr.branch, "feature/x");
    assert_eq!(pr.ci_status, CiStatus::Pending);
    let merged = pr_from_raw(
        RawPr {
            number: 10,
            title: "M".into(),
            body: None,
            draft: false,
            labels: vec![],
            assignees: vec![raw_user("x")],
            requested_reviewers: vec![],
            head_ref: None,
            merged_at: Some("2024-01-01T00:00:00Z".into()),
            state: "closed".into(),
            user: None,
        },
        1,
    );
    assert!(merged.merged);
    assert!(!merged.closed);
    assert_eq!(merged.assignees, vec!["x".to_string()]);
    assert_eq!(merged.branch, "");
}

#[test]
fn extension_column_definitions() {
    let cols = column_defs();
    assert_eq!(cols.len(), 11);
    assert_eq!(cols[0].name, "Icebox");
    assert_eq!(cols[3].name, "Failed");
    assert_eq!(cols[3].emoji, "❌");
    assert_eq!(cols[8].emoji, "☑\u{fe0f}");
    assert_eq!(cols[10].sort_order, 10);
}

#[test]
fn page_cards_leave_out_closed_column() {
    let mk = |n: u64, col: &str, pr: bool| Card {
        owner: "o".into(),
        repo: "r".into(),
        source: if pr {
            CardSource::PullRequest(pr_from_raw(
                RawPr {
                    number: n,
                    title: "P".into(),
                    body: None,
                    draft: false,
                    labels: vec![],
                    assignees: vec![raw_user("dev")],
                    requested_reviewers: vec![],
                    head_ref: None,
                    merged_at: None,
                    state: "open".into(),
                    user: None,
                },
                0,
            ))
        } else {
            CardSource::Issue(issue_from_raw(
                RawIssue {
                    number: n,
                    title: "I".into(),
                    body: None,
                    labels: vec![],
                    assignees: vec![],
                    state: "open".into(),
                    user: None,
                },
                0,
            ))
        },
        column: Column { name: col.into(), emoji: "e".into(), sort_order: 0 },
        priority: Some(Priority(2)),
        linked_prs: vec![],
        hidden: false,
    };
    let cards = vec![mk(1, "Backlog", false), mk(2, "Closed", false), mk(3, "Code review", true)];
    let mapped = mapped_cards(&cards);
    assert_eq!(mapped.len(), 2);
    assert_eq!(mapped[0].number, 1);
    assert!(!mapped[0].is_pr);
    assert_eq!(mapped[1].number, 3);
    assert!(mapped[1].is_pr);
    assert_eq!(mapped[1].assignees[0].login, "dev");
    assert_eq!(mapped[1].assignees[0].avatar_url, "");
    assert_eq!(mapped[1].priority, Some(2));
    assert_eq!(mapped[1].column, "Code review");
}

#[test]
fn repositories_are_classified() {
    let repos = vec![
        raw_repo("mine", Some(("me", "User")), Some("me/mine")),
        raw_repo("api", Some(("Acme", "Organization")), None),
        raw_repo("web", Some(("acme", "Organization")), Some("acme/web")),
        raw_repo("lib", Some(("beta", "Organization")), None),
        raw_repo("orphan", None, None),
    ];
    let c = classify_repos(repos, vec!["acme".into()]);
    assert_eq!(c.orgs, vec!["acme".to_string(), "beta".to_string()]);
    assert_eq!(c.personal_repos.len(), 2);
    assert_eq!(c.personal_repos[0].full, "me/mine");
    assert_eq!(c.personal_repos[1].full, "/orphan");
    assert_eq!(c.org_repos.len(), 2);
    assert_eq!(c.org_repos[0].0, "acme");
    let acme: Vec<&str> = c.org_repos[0].1.iter().map(|e| e.full.as_str()).collect();
    assert_eq!(acme, vec!["Acme/api", "acme/web"]);
    assert_eq!(c.org_repos[1].0, "beta");
    assert_eq!(c.org_repos[1].1[0].owner, "beta");
}

#[test]
fn page_context_and_view() {
    assert!(page_context("repo".into(), String::new(), "r".into(), 0).is_none());
    let ctx = page_context("pr".into(), "o".into(), "r".into(), 42).unwrap();
    assert_eq!(ctx.pr_number, 42);
    assert_eq!(page_view("repo"), PageView::Dashboard);
    assert_eq!(page_view("repo-sub"), PageView::Dashboard);
    assert_eq!(page_view("pr"), PageView::DashboardWithLinker);
    assert_eq!(page_view("issues"), PageView::Unknown);
}

#[test]
fn background_replies() {
    assert!(reply_outcome(true, None).is_ok());
    assert_eq!(reply_outcome(false, Some("boom".into())), Err("boom".to_string()));
    assert_eq!(reply_outcome(false, None), Err("unknown error".to_string()));
    assert!(token_configured(true, true));
    assert!(!token_configured(false, true));
}

#[test]
fn linker_search_and_body() {
    assert_eq!(linker_search_query("o/r", "  \t"), None);
    assert_eq!(
        linker_search_query("o/r", "login bug"),
        Some("repo:o/r is:issue login bug".to_string())
    );
    let selected = vec![
        SelectedIssue { repo: "o/r".into(), number: 4, title: "A".into() },
        SelectedIssue { repo: "o/x".into(), number: 12, title: "B".into() },
    ];
    assert_eq!(
        pr_body_with_issues("Body", &selected),
        "Body\n\n## Issues\nIssue: o/r#4\nIssue: o/x#12"
    );
    assert_eq!(
        pr_body_with_issues("Body\n\n## Issues\nIssue: o/r#1", &selected[..1].to_vec()),
        "Body\n\n## Issues\nIssue: o/r#1\nIssue: o/r#4"
    );
    let hits = search_results(vec![
        SearchItem { number: 1, title: "issue".into(), is_pull_request: false },
        SearchItem { number: 2, title: "pr".into(), is_pull_request: true },
    ]);
    assert_eq!(hits, vec![(1, "issue".to_string())]);
}

#[test]
fn board_page_sorts_and_leaves_out_closed() {
    let mk = |n: u64, col: &str, prio: Option<u8>| Card {
        owner: "o".into(),
        repo: "r".into(),
        source: CardSource::Issue(issue_from_raw(
            RawIssue {
                number: n,
                title: "I".into(),
                body: None,
                labels: vec![],
                assignees: vec![],
                state: "open".into(),
                user: None,
            },
            0,
        )),
        column: Column { name: col.into(), emoji: "e".into(), sort_order: 0 },
        priority: prio.map(Priority),
        linked_prs: vec![],
        hidden: false,
    };
    let cards = vec![
        mk(1, "Backlog", Some(3)),
        mk(2, "Closed", Some(1)),
        mk(3, "Backlog", Some(1)),
        mk(4, "Prebacklog", None),
        mk(5, "Backlog", Some(3)),
    ];
    let (columns, page) = board_page(cards);
    assert_eq!(columns.len(), 11);
    assert_eq!(columns[0].name, "Icebox");
    let numbers: Vec<u64> = page.iter().map(|c| c.number).collect();
    assert_eq!(numbers, vec![4, 3, 1, 5]);
    assert_eq!(page[0].priority, None);
    assert_eq!(page[1].priority, Some(1));
}

#[test]
fn issue_lines_written_by_the_linker_are_parsed_back() {
    let selected = vec![
        SelectedIssue { repo: "o/r".into(), number: 4, title: "A".into() },
        SelectedIssue { repo: "o/x".into(), number: 12, title: "B".into() },
    ];
    let body = pr_body_with_issues("Body", &selected);
    let refs = kardhub::kardhub::linking::parse_issue_refs(&body, "z", "z");
    let got: Vec<(String, String, u64)> = refs.into_iter().map(|r| (r.owner, r.repo, r.number)).collect();
    assert_eq!(got, vec![("o".to_string(), "r".to_string(), 4), ("o".to_string(), "x".to_string(), 12)]);
}
