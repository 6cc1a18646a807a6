use kardhub::kardhub::linking::{link_cards, parse_issue_refs, refs_from_matches};
use kardhub::kardhub::models::{Card, CardSource, CiStatus, Column, Issue, IssueState, PullRequest};

fn base_issue(number: u64) -> Issue {
    Issue {
        number,
        title: format!("Issue #{number}"),
        body: None,
        labels: vec![],
        assignees: vec![],
        state: IssueState::Open,
        sub_issues: vec![],
        author: "author".to_string(),
        updated_at: 1_700_000_000,
    }
}

fn base_pr(number: u64, body: Option<&str>) -> PullRequest {
    PullRequest {
        number,
        title: format!("PR #{number}"),
        body: body.map(|s| s.to_string()),
        draft: false,
        author: "dev".to_string(),
        assignees: vec![],
        requested_reviewers: vec![],
        reviews: vec![],
        ci_status: CiStatus::Success,
        merged: false,
        closed: false,
        branch: "feature/test".to_string(),
        labels: vec![],
        updated_at: 1_700_000_000,
    }
}

fn col(name: &str, sort_order: u8) -> Column {
    Column {
        name: name.to_string(),
        emoji: String::new(),
        sort_order,
    }
}

fn issue_card(number: u64, column: Column) -> Card {
    Card {
        owner: "org".to_string(),
        repo: "repo".to_string(),
        source: CardSource::Issue(base_issue(number)),
        column,
        priority: None,
        linked_prs: vec![],
        hidden: false,
    }
}

fn pr_card(number: u64, body: Option<&str>, column: Column) -> Card {
    Card {
        owner: "org".to_string(),
        repo: "repo".to_string(),
        source: CardSource::PullRequest(base_pr(number, body)),
        column,
        priority: None,
        linked_prs: vec![],
        hidden: false,
    }
}

// ── parse_issue_refs ────────────────────────────────────────────────

#[test]
fn parse_single_github_url() {
    let refs = parse_issue_refs("https://github.com/org/repo/issues/42", "o", "r");
    assert_eq!(refs.len(), 1);
    assert_eq!(refs[0].owner, "org");
    assert_eq!(refs[0].repo, "repo");
    assert_eq!(refs[0].number, 42);
}

#[test]
fn parse_multiple_github_urls() {
    let body = "https://github.com/org/repo/issues/1\nhttps://github.com/org/repo/issues/2\nhttps://github.com/other/lib/issues/3";
    let refs = parse_issue_refs(body, "o", "r");
    assert_eq!(refs.len(), 3);
    assert_eq!(refs[2].owner, "other");
    assert_eq!(refs[2].number, 3);
}

#[test]
fn parse_github_closing_keywords() {
    let body = "Closes org/repo#1\nFixes other/lib#2\nResolves #3";
    let refs = parse_issue_refs(body, "default_owner", "default_repo");
    assert_eq!(refs.len(), 3);
    assert_eq!(refs[0].owner, "org");
    assert_eq!(refs[1].owner, "other");
    assert_eq!(refs[2].owner, "default_owner");
    assert_eq!(refs[2].repo, "default_repo");
    assert_eq!(refs[2].number, 3);
}

#[test]
fn parse_ignores_non_matching() {
    let refs = parse_issue_refs("Just a regular PR body with no refs", "o", "r");
    assert!(refs.is_empty());
}

#[test]
fn parse_mixed_body() {
    let body = "## Summary\nSome changes.\n\nhttps://github.com/org/repo/issues/10\n\nMore text.";
    let refs = parse_issue_refs(body, "o", "r");
    assert_eq!(refs.len(), 1);
    assert_eq!(refs[0].number, 10);
}

#[test]
fn parse_deduplicates_url_and_keyword() {
    let body = "https://github.com/org/repo/issues/1\nCloses org/repo#1";
    let refs = parse_issue_refs(body, "o", "r");
    assert_eq!(refs.len(), 1);
}

#[test]
fn parse_lists_each_reference_once() {
    let body = "Closes #7\nFixes #7\nhttps://github.com/org/repo/issues/7";
    let refs = parse_issue_refs(body, "org", "repo");
    assert_eq!(refs.len(), 1);
    assert_eq!(refs[0].number, 7);
}

// ── link_cards ──────────────────────────────────────────────────────

#[test]
fn link_cards_populates_linked_prs() {
    let mut cards = vec![
        issue_card(42, col("Backlog", 2)),
        pr_card(10, Some("https://github.com/org/repo/issues/42"), col("Code review", 5)),
    ];
    link_cards(&mut cards);
    assert_eq!(cards[0].linked_prs.len(), 1);
    assert_eq!(cards[0].linked_prs[0].number, 10);
    assert_eq!(cards[0].linked_prs[0].column.name, "Code review");
}

#[test]
fn link_cards_overrides_column() {
    let mut cards = vec![
        issue_card(42, col("Backlog", 2)),
        pr_card(10, Some("https://github.com/org/repo/issues/42"), col("Code review", 5)),
    ];
    link_cards(&mut cards);
    // Single qualifying PR overrides the issue column.
    assert_eq!(cards[0].column.name, "Code review");
}

#[test]
fn link_cards_pending_overrides_backlog() {
    // Pending (sort 3) overrides Backlog (sort 2).
    let mut cards = vec![
        issue_card(42, col("Backlog", 2)),
        pr_card(10, Some("https://github.com/org/repo/issues/42"), col("Pending", 3)),
    ];
    link_cards(&mut cards);
    assert_eq!(cards[0].column.name, "Pending");
    assert_eq!(cards[0].linked_prs.len(), 1);
}

#[test]
fn link_cards_pr_overrides_even_backwards() {
    // PR in Pending (sort 3) overrides issue in In Progress (sort 4).
    let mut cards = vec![
        issue_card(42, col("In Progress", 4)),
        pr_card(10, Some("https://github.com/org/repo/issues/42"), col("Pending", 3)),
    ];
    link_cards(&mut cards);
    assert_eq!(cards[0].column.name, "Pending");
    assert_eq!(cards[0].linked_prs.len(), 1);
}

#[test]
fn link_cards_multiple_prs_lowest_wins() {
    let mut cards = vec![
        issue_card(42, col("Backlog", 2)),
        pr_card(10, Some("https://github.com/org/repo/issues/42"), col("QA Review", 7)),
        pr_card(11, Some("https://github.com/org/repo/issues/42"), col("Code review", 5)),
    ];
    link_cards(&mut cards);
    // Two non-Failed PRs: sort 7 and sort 5. Lowest (5) wins.
    assert_eq!(cards[0].column.name, "Code review");
    assert_eq!(cards[0].linked_prs.len(), 2);
}

#[test]
fn link_cards_twice_changes_nothing_more() {
    let mut cards = vec![
        issue_card(42, col("Backlog", 2)),
        pr_card(10, Some("Closes #42"), col("Code review", 5)),
    ];
    link_cards(&mut cards);
    let once = cards.clone();
    link_cards(&mut cards);
    assert_eq!(cards, once);
}

#[test]
fn link_cards_leaves_unreferenced_issue_alone() {
    let mut cards = vec![
        issue_card(1, col("Backlog", 2)),
        pr_card(10, Some("no references here"), col("Code review", 5)),
    ];
    link_cards(&mut cards);
    assert_eq!(cards[0].column.name, "Backlog");
    assert!(cards[0].linked_prs.is_empty());
}

#[test]
fn parse_issue_line_syntax() {
    let refs = parse_issue_refs("Issue: org/repo#5", "o", "r");
    assert_eq!(refs.len(), 1);
    assert_eq!(refs[0].owner, "org");
    assert_eq!(refs[0].repo, "repo");
    assert_eq!(refs[0].number, 5);
    let refs = parse_issue_refs("Body\n\n## Issues\nIssue: o/r#4\nissue: o/x#12\nCloses #4", "o", "r");
    let got: Vec<(String, String, u64)> = refs.into_iter().map(|r| (r.owner, r.repo, r.number)).collect();
    assert_eq!(
        got,
        vec![("o".to_string(), "r".to_string(), 4), ("o".to_string(), "x".to_string(), 12)]
    );
}

#[test]
fn refs_from_given_matches() {
    let m = |groups: &[Option<&str>]| groups.iter().map(|g| g.map(|s| s.to_string())).collect::<Vec<_>>();
    let url = vec![m(&[Some("u"), Some("a"), Some("b"), Some("1")])];
    let cross = vec![m(&[Some("c"), Some("a"), Some("b"), Some("1")]), m(&[Some("c"), Some("x"), Some("y"), Some("99999999999999999999999")])];
    let line = vec![m(&[Some("l"), Some("c"), Some("d"), Some("7")])];
    let same = vec![m(&[Some("s"), Some("3")]), m(&[Some("s"), None])];
    let refs = refs_from_matches(&url, &cross, &line, &same, "o", "r");
    let got: Vec<(String, String, u64)> = refs.into_iter().map(|r| (r.owner, r.repo, r.number)).collect();
    assert_eq!(
        got,
        vec![
            ("a".to_string(), "b".to_string(), 1),
            ("c".to_string(), "d".to_string(), 7),
            ("o".to_string(), "r".to_string(), 3),
        ]
    );
}
