use kardhub::kardhub::filtering::{matches_filter, BoardFilter};
use kardhub::kardhub::models::{Card, CardSource, CiStatus, Column, Issue, IssueState, LinkedPr, PullRequest};

/// Helper to build a minimal issue card for testing.
fn issue_card(number: u64, title: &str, body: Option<&str>, assignees: &[&str]) -> Card {
    Card {
        owner: "test-owner".into(),
        repo: "test-repo".into(),
        source: CardSource::Issue(Issue {
            number,
            title: title.into(),
            body: body.map(Into::into),
            labels: Vec::new(),
            assignees: assignees.iter().map(|s| (*s).to_string()).collect(),
            state: IssueState::Open,
            sub_issues: Vec::new(),
            author: String::new(),
            updated_at: 0,
        }),
        column: Column {
            name: "Backlog".into(),
            emoji: "📥".into(),
            sort_order: 2,
        },
        priority: None,
        linked_prs: Vec::new(),
        hidden: false,
    }
}

/// Helper to build a minimal PR card for testing.
fn pr_card(number: u64, title: &str, body: Option<&str>, assignees: &[&str]) -> Card {
    Card {
        owner: "test-owner".into(),
        repo: "test-repo".into(),
        source: CardSource::PullRequest(PullRequest {
            number,
            title: title.into(),
            body: body.map(Into::into),
            draft: false,
            author: String::new(),
            assignees: assignees.iter().map(|s| (*s).to_string()).collect(),
            requested_reviewers: Vec::new(),
            reviews: Vec::new(),
            ci_status: CiStatus::Pending,
            merged: false,
            closed: false,
            branch: String::new(),
            labels: Vec::new(),
            updated_at: 0,
        }),
        column: Column {
            name: "Code review".into(),
            emoji: "👀".into(),
            sort_order: 5,
        },
        priority: None,
        linked_prs: Vec::new(),
        hidden: false,
    }
}

#[test]
fn empty_filter_matches_all() {
    let card = issue_card(1, "Some issue", None, &[]);
    assert!(matches_filter(&card, &BoardFilter::default()));
}

#[test]
fn filter_by_assignee() {
    let card = issue_card(1, "Bug", None, &["alice", "bob"]);
    let filter = BoardFilter {
        assignee: Some("alice".into()),
        ..Default::default()
    };
    assert!(matches_filter(&card, &filter));

    let miss = BoardFilter {
        assignee: Some("charlie".into()),
        ..Default::default()
    };
    assert!(!matches_filter(&card, &miss));
}

#[test]
fn filter_by_assignee_case_insensitive() {
    let card = issue_card(1, "Bug", None, &["Alice"]);
    let filter = BoardFilter {
        assignee: Some("alice".into()),
        ..Default::default()
    };
    assert!(matches_filter(&card, &filter));
}

#[test]
fn filter_by_text_title() {
    let card = issue_card(1, "Fix login button", None, &[]);
    let filter = BoardFilter {
        text: Some("login".into()),
        ..Default::default()
    };
    assert!(matches_filter(&card, &filter));
}

#[test]
fn filter_by_text_body() {
    let card = issue_card(1, "Bug report", Some("The login button is broken"), &[]);
    let filter = BoardFilter {
        text: Some("broken".into()),
        ..Default::default()
    };
    assert!(matches_filter(&card, &filter));
}

#[test]
fn filter_by_text_none_body() {
    let card = issue_card(1, "Bug report", None, &[]);
    let filter = BoardFilter {
        text: Some("broken".into()),
        ..Default::default()
    };
    assert!(!matches_filter(&card, &filter));
}

#[test]
fn filter_by_number() {
    let card = issue_card(42, "Bug", None, &[]);
    let filter = BoardFilter {
        number: Some("42".into()),
        ..Default::default()
    };
    assert!(matches_filter(&card, &filter));

    let miss = BoardFilter {
        number: Some("99".into()),
        ..Default::default()
    };
    assert!(!matches_filter(&card, &miss));
}

#[test]
fn combined_filters_and_semantics() {
    let card = issue_card(10, "Fix auth flow", Some("OAuth bug"), &["alice"]);
    let filter = BoardFilter {
        assignee: Some("alice".into()),
        text: Some("auth".into()),
        number: Some("10".into()),
    };
    assert!(matches_filter(&card, &filter));
}

#[test]
fn combined_filters_partial_miss() {
    let card = issue_card(10, "Fix auth flow", None, &["alice"]);
    let filter = BoardFilter {
        assignee: Some("alice".into()),
        text: Some("auth".into()),
        number: Some("99".into()), // mismatch
    };
    assert!(!matches_filter(&card, &filter));
}

#[test]
fn filter_works_on_pr_cards() {
    let card = pr_card(55, "Add caching", Some("Redis integration"), &["bob"]);
    let filter = BoardFilter {
        assignee: Some("bob".into()),
        text: Some("caching".into()),
        number: Some("55".into()),
    };
    assert!(matches_filter(&card, &filter));
}

#[test]
fn filter_assignee_substring_match() {
    let card = issue_card(1, "Bug", None, &["alice-admin"]);
    let filter = BoardFilter {
        assignee: Some("alice".into()),
        ..Default::default()
    };
    assert!(matches_filter(&card, &filter));
}

#[test]
fn filter_number_matches_linked_pr() {
    let mut card = issue_card(42, "Feature request", None, &[]);
    card.linked_prs.push(LinkedPr {
        owner: "org".into(),
        repo: "repo".into(),
        number: 100,
        title: "Implement feature".into(),
        column: Column {
            name: "Code review".into(),
            emoji: "👀".into(),
            sort_order: 5,
        },
        merged: false,
        closed: false,
        draft: false,
        assignees: Vec::new(),
    });
    // Searching by PR number should match the issue card.
    let filter = BoardFilter {
        number: Some("100".into()),
        ..Default::default()
    };
    assert!(matches_filter(&card, &filter));
    // Searching by issue number still works.
    let filter2 = BoardFilter {
        number: Some("42".into()),
        ..Default::default()
    };
    assert!(matches_filter(&card, &filter2));
}

// ── Further cases ───────────────────────────────────────────────────

#[test]
fn text_filter_ignores_case() {
    let card = issue_card(3, "Fix LOGIN page", None, &[]);
    let filter = BoardFilter {
        text: Some("login".into()),
        ..Default::default()
    };
    assert!(matches_filter(&card, &filter));
}

#[test]
fn number_filter_is_a_substring_match() {
    let card = issue_card(142, "Bug", None, &[]);
    let filter = BoardFilter {
        number: Some("4".into()),
        ..Default::default()
    };
    assert!(matches_filter(&card, &filter));
}

#[test]
fn assignee_filter_misses_unassigned_card() {
    let card = issue_card(1, "Bug", None, &[]);
    let filter = BoardFilter {
        assignee: Some("alice".into()),
        ..Default::default()
    };
    assert!(!matches_filter(&card, &filter));
}

#[test]
fn empty_filter_reports_empty() {
    assert!(BoardFilter::default().is_empty());
    let f = BoardFilter {
        text: Some("x".into()),
        ..Default::default()
    };
    assert!(!f.is_empty());
}
