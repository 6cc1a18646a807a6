use kardhub::kardhub::detail::{
    all_approved, available_labels, can_edit_body, can_save, display_labels, github_url,
    is_open, is_priority_like, issue_assignee_suggestions, labels_with_priority, pending_reviewers, toggle_choice,
    priority_names, type_label, visible_labels,
};
use kardhub::kardhub::models::{
    Card, CardSource, CiStatus, Column, Label, PullRequest, Review, ReviewState, User,
};

fn label(name: &str) -> Label {
    Label { name: name.into(), color: "c".into() }
}

fn pr(author: &str, assignees: &[&str], merged: bool) -> PullRequest {
    PullRequest {
        number: 3,
        title: "P".into(),
        body: None,
        draft: false,
        author: author.into(),
        assignees: assignees.iter().map(|s| s.to_string()).collect(),
        requested_reviewers: vec!["rev1".into(), "rev2".into()],
        reviews: vec![Review {
            user: User { login: "rev1".into(), avatar_url: String::new() },
            state: ReviewState::Approved,
        }],
        ci_status: CiStatus::Success,
        merged,
        closed: false,
        branch: "b".into(),
        labels: vec![],
        updated_at: 0,
    }
}

fn pr_card(p: PullRequest) -> Card {
    Card {
        owner: "o".into(),
        repo: "r".into(),
        source: CardSource::PullRequest(p),
        column: Column { name: "Code review".into(), emoji: String::new(), sort_order: 5 },
        priority: None,
        linked_prs: vec![],
        hidden: false,
    }
}

#[test]
fn editing_rights_on_pull_requests() {
    let mine = pr_card(pr("me", &[], false));
    assert!(is_open(&mine));
    assert!(can_edit_body(&mine, "me"));
    assert!(!can_edit_body(&mine, "you"));
    let assigned = pr_card(pr("x", &["you"], false));
    assert!(can_edit_body(&assigned, "you"));
    let merged = pr_card(pr("me", &[], true));
    assert!(!is_open(&merged));
    assert!(!can_edit_body(&merged, "me"));
    assert_eq!(type_label(&mine), "Pull Request");
}

#[test]
fn item_urls() {
    assert_eq!(github_url("o", "r", true, 3), "https://github.com/o/r/pull/3");
    assert_eq!(github_url("o", "r", false, 12), "https://github.com/o/r/issues/12");
}

#[test]
fn priority_labels_are_split_off() {
    let labels = vec![label("bug"), label("#2"), label("#9"), label("ui")];
    let shown: Vec<String> = display_labels(&labels).into_iter().map(|l| l.name).collect();
    assert_eq!(shown, vec!["bug", "#9", "ui"]);
    assert_eq!(priority_names(&labels), vec!["#2".to_string()]);
}

#[test]
fn new_priority_replaces_old_one() {
    let out = labels_with_priority(&vec!["bug".into(), "ui".into()], &vec!["#2".into()], 4);
    assert_eq!(out, vec!["bug".to_string(), "ui".to_string(), "#4".to_string()]);
    let same = labels_with_priority(&vec!["bug".into()], &vec!["#4".into()], 4);
    assert_eq!(same, vec!["bug".to_string(), "#4".to_string()]);
}

#[test]
fn reviewers_still_to_review() {
    let p = pr("me", &[], false);
    assert_eq!(pending_reviewers(&p), vec!["rev2".to_string()]);
    assert!(all_approved(&p.reviews));
    assert!(!all_approved(&vec![]));
}

#[test]
fn new_issue_panel_offers() {
    assert!(is_priority_like(" #12 "));
    assert!(is_priority_like("#"));
    assert!(!is_priority_like("#a"));
    assert!(!is_priority_like("bug"));
    let labels = vec![label("#1"), label("Bug"), label("ui"), label(" #3")];
    let visible = visible_labels(&labels);
    let names: Vec<&str> = visible.iter().map(|l| l.name.as_str()).collect();
    assert_eq!(names, vec!["Bug", "ui"]);
    let avail = available_labels(&visible, &vec!["ui".into()], "BU");
    assert_eq!(avail.len(), 1);
    assert_eq!(avail[0].name, "Bug");
    assert_eq!(available_labels(&visible, &vec![], "").len(), 2);
    let members = vec!["alice".to_string(), "alfred".to_string(), "bob".to_string()];
    assert_eq!(
        issue_assignee_suggestions(&members, &vec!["alice".into()], "AL", true),
        vec!["alfred".to_string()]
    );
    assert!(issue_assignee_suggestions(&members, &vec![], "al", false).is_empty());
    assert!(can_save(" Title ", Some(2), false));
    assert!(!can_save("   ", Some(2), false));
    assert!(!can_save("Title", None, false));
    assert!(!can_save("Title", Some(1), true));
}

#[test]
fn multi_select_toggles() {
    let mut chosen = vec!["alice".to_string(), "bob".to_string()];
    assert!(!toggle_choice(&mut chosen, "alice".into()));
    assert_eq!(chosen, vec!["bob".to_string()]);
    assert!(toggle_choice(&mut chosen, "carol".into()));
    assert_eq!(chosen, vec!["bob".to_string(), "carol".to_string()]);
}
