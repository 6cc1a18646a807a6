use kardhub::cardman::mapping::{map_card, MappingConfig};
use kardhub::cardman::models::{
    CardSource, CiStatus, Issue, IssueState, Label, Priority, PullRequest, Review, ReviewState, User,
};

fn label(name: &str) -> Label {
    Label {
        name: name.to_string(),
        color: "000000".to_string(),
    }
}

fn user(login: &str) -> User {
    User {
        login: login.to_string(),
        avatar_url: String::new(),
        name: None,
    }
}

fn default_config() -> MappingConfig {
    MappingConfig::default()
}

fn base_issue() -> Issue {
    Issue {
        number: 1,
        title: "Test issue".to_string(),
        body: None,
        labels: vec![],
        assignees: vec![],
        state: IssueState::Open,
        sub_issues: vec![],
    }
}

fn base_pr() -> PullRequest {
    PullRequest {
        number: 10,
        title: "Test PR".to_string(),
        draft: false,
        author: User::default(),
        assignees: vec![],
        requested_reviewers: vec![],
        reviews: vec![],
        ci_status: CiStatus::Success,
        merged: false,
        closed: false,
        branch: "feature/test".to_string(),
        labels: vec![],
    }
}

#[test]
fn issue_no_labels_maps_to_prebacklog() {
    let issue = base_issue();
    let card = map_card(CardSource::Issue(issue), &default_config());
    assert_eq!(card.column.name, "Prebacklog");
    assert!(card.priority.is_none());
}

#[test]
fn issue_priority_6_maps_to_icebox() {
    let mut issue = base_issue();
    issue.labels = vec![label("#6")];
    let card = map_card(CardSource::Issue(issue), &default_config());
    assert_eq!(card.column.name, "Icebox");
    assert_eq!(card.priority, Some(Priority(6)));
}

#[test]
fn issue_priority_4_maps_to_prebacklog() {
    let mut issue = base_issue();
    issue.labels = vec![label("#4")];
    let card = map_card(CardSource::Issue(issue), &default_config());
    assert_eq!(card.column.name, "Prebacklog");
}

#[test]
fn issue_priority_5_maps_to_prebacklog() {
    let mut issue = base_issue();
    issue.labels = vec![label("#5")];
    let card = map_card(CardSource::Issue(issue), &default_config());
    assert_eq!(card.column.name, "Prebacklog");
}

#[test]
fn issue_priority_1_maps_to_backlog() {
    let mut issue = base_issue();
    issue.labels = vec![label("#1")];
    let card = map_card(CardSource::Issue(issue), &default_config());
    assert_eq!(card.column.name, "Backlog");
    assert_eq!(card.priority, Some(Priority(1)));
}

#[test]
fn issue_priority_2_maps_to_backlog() {
    let mut issue = base_issue();
    issue.labels = vec![label("#2")];
    let card = map_card(CardSource::Issue(issue), &default_config());
    assert_eq!(card.column.name, "Backlog");
}

#[test]
fn issue_priority_3_maps_to_backlog() {
    let mut issue = base_issue();
    issue.labels = vec![label("#3")];
    let card = map_card(CardSource::Issue(issue), &default_config());
    assert_eq!(card.column.name, "Backlog");
}

#[test]
fn issue_multiple_priorities_uses_highest() {
    let mut issue = base_issue();
    issue.labels = vec![label("#3"), label("#1"), label("#5")];
    let card = map_card(CardSource::Issue(issue), &default_config());
    // Highest priority (#1) determines column
    assert_eq!(card.column.name, "Backlog");
    assert_eq!(card.priority, Some(Priority(1)));
}

#[test]
fn pr_open_no_reviewers_maps_to_in_progress() {
    let pr = base_pr();
    let card = map_card(CardSource::PullRequest(pr), &default_config());
    assert_eq!(card.column.name, "In Progress");
}

#[test]
fn pr_with_reviewers_no_failure_maps_to_code_review() {
    let mut pr = base_pr();
    pr.reviews = vec![Review {
        user: user("reviewer1"),
        state: ReviewState::Commented,
    }];
    let card = map_card(CardSource::PullRequest(pr), &default_config());
    assert_eq!(card.column.name, "Code review");
}

#[test]
fn pr_with_failed_ci_stays_in_progress() {
    let mut pr = base_pr();
    pr.ci_status = CiStatus::Failure;
    pr.reviews = vec![Review {
        user: user("reviewer1"),
        state: ReviewState::Commented,
    }];
    let card = map_card(CardSource::PullRequest(pr), &default_config());
    assert_eq!(card.column.name, "In Progress");
}

#[test]
fn pr_with_n_approvals_maps_to_qa_backlog() {
    let mut pr = base_pr();
    pr.reviews = vec![
        Review {
            user: user("dev1"),
            state: ReviewState::Approved,
        },
        Review {
            user: user("dev2"),
            state: ReviewState::Approved,
        },
    ];
    let card = map_card(CardSource::PullRequest(pr), &default_config());
    assert_eq!(card.column.name, "QA Backlog");
}

#[test]
fn pr_with_custom_required_approvals() {
    let mut pr = base_pr();
    pr.reviews = vec![Review {
        user: user("dev1"),
        state: ReviewState::Approved,
    }];
    let config = MappingConfig {
        required_approvals: 1,
        ..default_config()
    };
    let card = map_card(CardSource::PullRequest(pr), &config);
    assert_eq!(card.column.name, "QA Backlog");
}

#[test]
fn pr_with_qa_label_maps_to_qa_review() {
    let mut pr = base_pr();
    pr.labels = vec![label("QA")];
    let card = map_card(CardSource::PullRequest(pr), &default_config());
    assert_eq!(card.column.name, "QA Review");
}

#[test]
fn pr_qa_approved_maps_to_ready_for_stg() {
    let mut pr = base_pr();
    let config = MappingConfig {
        qa_users: vec!["qa-bot".to_string()],
        ..default_config()
    };
    pr.reviews = vec![Review {
        user: user("qa-bot"),
        state: ReviewState::Approved,
    }];
    let card = map_card(CardSource::PullRequest(pr), &config);
    assert_eq!(card.column.name, "Ready for STG");
}

#[test]
fn pr_merged_maps_to_ready_for_deploy() {
    let mut pr = base_pr();
    pr.merged = true;
    let card = map_card(CardSource::PullRequest(pr), &default_config());
    assert_eq!(card.column.name, "Ready for deploy");
}

#[test]
fn pr_in_release_branch_maps_to_in_release() {
    let mut pr = base_pr();
    pr.branch = "release/v1.0".to_string();
    let card = map_card(CardSource::PullRequest(pr), &default_config());
    assert_eq!(card.column.name, "In Release");
}

#[test]
fn pr_pending_review_blocks_code_review() {
    let mut pr = base_pr();
    pr.reviews = vec![
        Review {
            user: user("dev1"),
            state: ReviewState::Approved,
        },
        Review {
            user: user("dev2"),
            state: ReviewState::Pending,
        },
    ];
    let card = map_card(CardSource::PullRequest(pr), &default_config());
    // Pending review blocks both Code Review and QA Backlog → In Progress
    assert_eq!(card.column.name, "In Progress");
}

// ── Further cases of the rules ──────────────────────────────────────

#[test]
fn release_dash_branch_maps_to_in_release_even_when_merged() {
    let mut pr = base_pr();
    pr.branch = "release-2024".to_string();
    pr.merged = true;
    let card = map_card(CardSource::PullRequest(pr), &default_config());
    assert_eq!(card.column.name, "In Release");
}

#[test]
fn qa_user_matching_ignores_ascii_case() {
    let mut pr = base_pr();
    let config = MappingConfig {
        qa_users: vec!["QA-Bot".to_string()],
        ..default_config()
    };
    pr.reviews = vec![Review {
        user: user("qa-bot"),
        state: ReviewState::Approved,
    }];
    let card = map_card(CardSource::PullRequest(pr), &config);
    assert_eq!(card.column.name, "Ready for STG");
}

#[test]
fn qa_label_matching_ignores_ascii_case() {
    let mut pr = base_pr();
    pr.labels = vec![label("qa")];
    let card = map_card(CardSource::PullRequest(pr), &default_config());
    assert_eq!(card.column.name, "QA Review");
}

#[test]
fn pr_card_takes_priority_from_labels() {
    let mut pr = base_pr();
    pr.labels = vec![label("#2"), label("bug")];
    let card = map_card(CardSource::PullRequest(pr), &default_config());
    assert_eq!(card.priority, Some(Priority(2)));
    assert_eq!(card.column.name, "In Progress");
}

#[test]
fn column_sort_orders_follow_the_board() {
    let mut issue = base_issue();
    issue.labels = vec![label("#6")];
    let icebox = map_card(CardSource::Issue(issue), &default_config());
    let mut pr = base_pr();
    pr.branch = "release/x".to_string();
    let release = map_card(CardSource::PullRequest(pr), &default_config());
    assert_eq!(icebox.column.sort_order, 0);
    assert_eq!(icebox.column.emoji, "🧊");
    assert_eq!(release.column.sort_order, 10);
    assert_eq!(release.column.emoji, "📦");
}

#[test]
fn qa_ok_label_maps_to_ready_for_stg() {
    let mut pr = base_pr();
    pr.labels = vec![label("qa-ok"), label("QA")];
    let card = map_card(CardSource::PullRequest(pr), &default_config());
    assert_eq!(card.column.name, "Ready for STG");
}

#[test]
fn qa_failed_label_maps_to_failed() {
    let mut pr = base_pr();
    pr.labels = vec![label("QA"), label("QA-Failed")];
    let card = map_card(CardSource::PullRequest(pr), &default_config());
    assert_eq!(card.column.name, "Failed");
    assert_eq!(card.column.emoji, "❌");
    assert_eq!(card.column.sort_order, 3);
}

#[test]
fn merged_pr_ignores_qa_failed_label() {
    let mut pr = base_pr();
    pr.merged = true;
    pr.labels = vec![label("QA-Failed")];
    let card = map_card(CardSource::PullRequest(pr), &default_config());
    assert_eq!(card.column.name, "Ready for deploy");
}

#[test]
fn closed_issue_maps_to_closed_column() {
    let mut issue = base_issue();
    issue.state = IssueState::Closed;
    let card = map_card(CardSource::Issue(issue.clone()), &default_config());
    assert_eq!(card.column.name, "Closed");
    assert_eq!(card.column.emoji, "🚪");
    assert_eq!(card.column.sort_order, 11);
    issue.labels = vec![label("#1")];
    let card = map_card(CardSource::Issue(issue), &default_config());
    assert_eq!(card.column.name, "Closed");
    assert_eq!(card.priority, Some(Priority(1)));
}

#[test]
fn priority_label_needs_exact_form() {
    let mut issue = base_issue();
    issue.labels = vec![label("#+1"), label("#01")];
    let card = map_card(CardSource::Issue(issue), &default_config());
    assert_eq!(card.column.name, "Prebacklog");
    assert!(card.priority.is_none());
}
