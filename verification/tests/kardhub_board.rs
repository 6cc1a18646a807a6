use kardhub::kardhub::board::{
    assignee_suggestions, board_columns, board_filter_from, ci_class, ci_label, column_cards, is_closed,
    orgs_by_lowercase, relative_time, resolve_login, review_badge, sidebar_order, ReviewBadge,
};
use kardhub::kardhub::filtering::BoardFilter;
use kardhub::kardhub::models::{
    Card, CardSource, CiStatus, Column, Issue, IssueState, Priority, Review, ReviewState, User,
};
use kardhub::kardhub::session::RepoEntry;

fn card(number: u64, column: &str, state: IssueState, priority: Option<u8>, hidden: bool) -> Card {
    Card {
        owner: "o".into(),
        repo: "r".into(),
        source: CardSource::Issue(Issue {
            number,
            title: format!("Issue {number}"),
            body: None,
            labels: vec![],
            assignees: vec![],
            state,
            sub_issues: vec![],
            author: "a".into(),
            updated_at: 0,
        }),
        column: Column {
            name: column.into(),
            emoji: String::new(),
            sort_order: 0,
        },
        priority: priority.map(Priority),
        linked_prs: vec![],
        hidden,
    }
}

fn user(login: &str) -> User {
    User {
        login: login.into(),
        avatar_url: format!("https://a/{login}"),
    }
}

#[test]
fn board_lists_twelve_columns_ending_with_closed() {
    let cols = board_columns();
    assert_eq!(cols.len(), 12);
    assert_eq!(cols[0], ("🧊", "Icebox"));
    assert_eq!(cols[3], ("🔙", "Pending"));
    assert_eq!(cols[11], ("🚪", "Closed"));
}

#[test]
fn columns_take_their_cards_in_priority_order() {
    let cards = vec![
        card(1, "Backlog", IssueState::Open, Some(3), false),
        card(2, "Backlog", IssueState::Open, Some(1), false),
        card(3, "Backlog", IssueState::Open, None, true),
        card(4, "Backlog", IssueState::Closed, None, false),
        card(5, "Icebox", IssueState::Open, Some(6), false),
        card(6, "Backlog", IssueState::Open, Some(1), false),
    ];
    let filter = BoardFilter::default();
    assert_eq!(column_cards(&cards, "Backlog", &filter), vec![1, 5, 0]);
    assert_eq!(column_cards(&cards, "Closed", &filter), vec![3]);
    assert_eq!(column_cards(&cards, "Icebox", &filter), vec![4]);
    let narrow = BoardFilter {
        number: Some("6".into()),
        ..Default::default()
    };
    assert_eq!(column_cards(&cards, "Backlog", &narrow), vec![5]);
    assert!(is_closed(&cards[3]));
    assert!(!is_closed(&cards[0]));
}

#[test]
fn assignee_box_suggests_matching_members() {
    let members: Vec<User> = ["Alice", "bob", "alicia", "carol", "ali1", "ali2", "ali3", "ali4"]
        .iter()
        .map(|l| user(l))
        .collect();
    let s = assignee_suggestions(&members, "ALI", true);
    assert_eq!(s, vec!["Alice", "alicia", "ali1", "ali2", "ali3", "ali4"]);
    assert!(assignee_suggestions(&members, "ali", false).is_empty());
    assert!(assignee_suggestions(&members, "", true).is_empty());
    assert_eq!(assignee_suggestions(&members, "car", true), vec!["carol"]);
}

#[test]
fn filter_bar_builds_the_filter() {
    let f = board_filter_from(Some("alice".into()), String::new(), "##42");
    assert_eq!(f.assignee.as_deref(), Some("alice"));
    assert!(f.text.is_none());
    assert_eq!(f.number.as_deref(), Some("42"));
    let g = board_filter_from(None, "login".into(), "#");
    assert_eq!(g.text.as_deref(), Some("login"));
    assert!(g.number.is_none());
}

#[test]
fn ci_labels_and_classes() {
    assert_eq!(ci_class(CiStatus::Success), "ci-success");
    assert_eq!(ci_class(CiStatus::Failure), "ci-failure");
    assert_eq!(ci_label(CiStatus::Pending), "⏳ Pending");
    assert_eq!(ci_label(CiStatus::Success), "✅ Passing");
}

#[test]
fn logins_resolve_to_members() {
    let members = vec![user("alice"), user("bob")];
    assert_eq!(resolve_login("bob", &members).avatar_url, "https://a/bob");
    let stranger = resolve_login("zed", &members);
    assert_eq!(stranger.login, "zed");
    assert_eq!(stranger.avatar_url, "");
}

#[test]
fn review_badge_follows_last_review() {
    let reviews = vec![
        Review { user: user("alice"), state: ReviewState::ChangesRequested },
        Review { user: user("bob"), state: ReviewState::Commented },
        Review { user: user("alice"), state: ReviewState::Approved },
    ];
    assert_eq!(review_badge("alice", &reviews), ReviewBadge::Approved);
    assert_eq!(review_badge("bob", &reviews), ReviewBadge::Commented);
    assert_eq!(review_badge("carol", &reviews), ReviewBadge::Pending);
    let dismissed = vec![Review { user: user("dan"), state: ReviewState::Dismissed }];
    assert_eq!(review_badge("dan", &dismissed), ReviewBadge::Pending);
}

#[test]
fn relative_times() {
    assert_eq!(relative_time(-5), "just now");
    assert_eq!(relative_time(59), "just now");
    assert_eq!(relative_time(60), "1m ago");
    assert_eq!(relative_time(3599), "59m ago");
    assert_eq!(relative_time(7200), "2h ago");
    assert_eq!(relative_time(3 * 86400), "3d ago");
    assert_eq!(relative_time(45 * 86400), "1mo ago");
    assert_eq!(relative_time(800 * 86400), "2y ago");
}

#[test]
fn sidebar_orders_repositories() {
    let repos = vec![
        RepoEntry { name: "zeta".into(), card_count: 0 },
        RepoEntry { name: "Alpha".into(), card_count: 0 },
        RepoEntry { name: "busy".into(), card_count: 5 },
        RepoEntry { name: "quiet".into(), card_count: 1 },
        RepoEntry { name: "also-busy".into(), card_count: 5 },
    ];
    assert_eq!(sidebar_order(&repos), vec![2, 4, 3, 1, 0]);
    let orgs = orgs_by_lowercase(&vec!["beta".into(), "Acme".into(), "acme-two".into()]);
    assert_eq!(orgs, vec!["Acme".to_string(), "acme-two".to_string(), "beta".to_string()]);
}
