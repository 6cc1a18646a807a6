use kardhub::kardhub::cache::{save_cards, save_profile, BoardCache, SourceMap};
use kardhub::kardhub::models::{
    AuthenticatedUser, Card, CardSource, CiStatus, Column, Issue, IssueState, Label, Priority, PullRequest,
    Repository, User,
};
use kardhub::kardhub::session::{
    add_labels, build_repo_entries, build_source_map, card_titles, drop_closed_prs, members_with_user,
    merge_open_issues, merge_open_prs, owner_for_source, personal_repos_for, repo_display, repos_for_kind,
    replace_card, restore_source, selected_indices, selected_repo_names, sort_cards_by_priority,
    source_key_for, source_setting_name, source_title, toggle_repo, upsert_by_number, use_cached_profile,
    PersonalFilter, SourceKind,
};
use kardhub::str_map::StrMap;

fn repo(owner: &str, owner_type: &str, name: &str, archived: bool) -> Repository {
    Repository {
        owner: owner.into(),
        owner_type: owner_type.into(),
        name: name.into(),
        archived,
        default_branch: "main".into(),
    }
}

fn issue(number: u64, state: IssueState, title: &str) -> Issue {
    Issue {
        number,
        title: title.into(),
        body: None,
        labels: vec![],
        assignees: vec![],
        state,
        sub_issues: vec![],
        author: "a".into(),
        updated_at: 0,
    }
}

fn pr(number: u64, title: &str) -> PullRequest {
    PullRequest {
        number,
        title: title.into(),
        body: None,
        draft: false,
        author: "dev".into(),
        assignees: vec![],
        requested_reviewers: vec![],
        reviews: vec![],
        ci_status: CiStatus::Pending,
        merged: false,
        closed: false,
        branch: "b".into(),
        labels: vec![],
        updated_at: 0,
    }
}

fn card(number: u64, priority: Option<u8>) -> Card {
    Card {
        owner: "o".into(),
        repo: "r".into(),
        source: CardSource::Issue(issue(number, IssueState::Open, "t")),
        column: Column {
            name: "Backlog".into(),
            emoji: "📥".into(),
            sort_order: 2,
        },
        priority: priority.map(Priority),
        linked_prs: vec![],
        hidden: false,
    }
}

fn number(c: &Card) -> u64 {
    match &c.source {
        CardSource::Issue(i) => i.number,
        CardSource::PullRequest(p) => p.number,
    }
}

#[test]
fn source_map_is_built_by_relationship() {
    let repos = vec![
        repo("me", "User", "mine", false),
        repo("friend", "User", "shared", false),
        repo("acme", "Organization", "api", false),
        repo("zeta", "Organization", "site", false),
        repo("acme", "Organization", "web", false),
        repo("acme", "Organization", "old", true),
        repo("beta", "Organization", "tool", false),
    ];
    let map = build_source_map(repos, &vec!["acme".to_string(), "beta".to_string()], "me");
    assert_eq!(map.personal.owner, vec!["mine".to_string()]);
    assert_eq!(map.personal.collaborator, vec!["shared".to_string()]);
    assert_eq!(
        map.organizations.member,
        vec![
            ("acme".to_string(), vec!["api".to_string(), "web".to_string()]),
            ("beta".to_string(), vec!["tool".to_string()]),
        ]
    );
    assert_eq!(map.organizations.collaborator, vec![("zeta".to_string(), vec!["site".to_string()])]);
    assert_eq!(map.org_names(), vec!["acme".to_string(), "beta".to_string(), "zeta".to_string()]);
    assert_eq!(map.repos_for_source("zeta"), vec!["site".to_string()]);
    assert_eq!(map.repos_for_source("personal"), vec!["mine".to_string(), "shared".to_string()]);
    assert!(map.repos_for_source("nobody").is_empty());
}

#[test]
fn restoring_the_last_source() {
    let orgs = vec!["acme".to_string()];
    assert_eq!(restore_source(&Some("acme".into()), &orgs), SourceKind::Organization("acme".into()));
    assert_eq!(restore_source(&Some("gone".into()), &orgs), SourceKind::Personal);
    assert_eq!(restore_source(&Some("personal".into()), &orgs), SourceKind::Personal);
    assert_eq!(restore_source(&None, &orgs), SourceKind::Personal);
}

#[test]
fn repos_and_selection_are_restored() {
    let mut map = SourceMap::default();
    map.personal.owner = vec!["a".into(), "b".into(), "c".into()];
    map.personal.collaborator = vec!["x".into()];
    let repos = repos_for_kind(&map, &SourceKind::Personal);
    assert_eq!(repos, vec!["a".to_string(), "b".to_string(), "c".to_string()]);
    let idx = selected_indices(&vec!["c".into(), "zzz".into(), "a".into()], &repos);
    assert_eq!(idx, vec![2, 0]);
    assert_eq!(personal_repos_for(&map, PersonalFilter::Collaborator), vec!["x".to_string()]);
    assert_eq!(PersonalFilter::default(), PersonalFilter::Owner);
}

#[test]
fn owner_and_key_of_a_source() {
    assert_eq!(owner_for_source(&SourceKind::Personal, "me"), "me");
    assert_eq!(owner_for_source(&SourceKind::Organization("Acme".into()), "me"), "Acme");
    assert_eq!(source_key_for(&SourceKind::Personal), "personal");
    assert_eq!(source_key_for(&SourceKind::Organization("Acme Inc".into())), "acme_inc");
    assert_eq!(source_setting_name(&SourceKind::Personal), "personal");
    assert_eq!(source_title(&SourceKind::Personal), "Personal");
    assert_eq!(source_title(&SourceKind::Organization("Acme".into())), "Acme");
}

#[test]
fn repo_entries_carry_cached_counts() {
    let mut dir: BoardCache = StrMap::new();
    save_cards(&mut dir, "o", "r", vec![card(1, None), card(2, None)], 0);
    let entries = build_repo_entries(&dir, &vec!["r".into(), "s".into()], "o");
    assert_eq!(entries[0].card_count, 2);
    assert_eq!(entries[1].card_count, 0);
    assert_eq!(entries[1].name, "s");
}

#[test]
fn open_issues_merge_replaces_and_drops_closed() {
    let cached = vec![issue(1, IssueState::Open, "one"), issue(2, IssueState::Open, "two")];
    let fetched = vec![issue(2, IssueState::Closed, "two"), issue(3, IssueState::Open, "three"), issue(1, IssueState::Open, "one v2")];
    let merged = merge_open_issues(true, cached.clone(), fetched.clone());
    let numbers: Vec<u64> = merged.iter().map(|i| i.number).collect();
    assert_eq!(numbers, vec![1, 3]);
    assert_eq!(merged[0].title, "one v2");
    let first_sync = merge_open_issues(false, cached, fetched);
    assert_eq!(first_sync.len(), 3);
}

#[test]
fn open_prs_merge_and_closed_ones_drop() {
    let merged = merge_open_prs(true, vec![pr(1, "a"), pr(2, "b")], vec![pr(2, "b2"), pr(5, "e")]);
    let numbers: Vec<u64> = merged.iter().map(|p| p.number).collect();
    assert_eq!(numbers, vec![1, 2, 5]);
    assert_eq!(merged[1].title, "b2");
    let open = drop_closed_prs(merged, &vec![pr(2, "closed")]);
    let numbers: Vec<u64> = open.iter().map(|p| p.number).collect();
    assert_eq!(numbers, vec![1, 5]);
    assert_eq!(merge_open_prs(false, vec![pr(1, "a")], vec![]).len(), 0);
}

#[test]
fn upsert_replaces_first_of_a_number() {
    let mut cached = vec![pr(1, "a"), pr(2, "b")];
    upsert_by_number(&mut cached, vec![pr(1, "a2"), pr(3, "c")]);
    let titles: Vec<&str> = cached.iter().map(|p| p.title.as_str()).collect();
    assert_eq!(titles, vec!["a2", "b", "c"]);
}

#[test]
fn cards_sort_by_priority_stably() {
    let cards = vec![card(1, Some(3)), card(2, None), card(3, Some(1)), card(4, Some(3)), card(5, None)];
    let sorted = sort_cards_by_priority(cards);
    let numbers: Vec<u64> = sorted.iter().map(number).collect();
    assert_eq!(numbers, vec![2, 5, 3, 1, 4]);
}

#[test]
fn board_title_for_the_selection() {
    let repos = vec!["api".to_string(), "web".to_string()];
    assert_eq!(repo_display(&repos, &vec![]), "No repository");
    assert_eq!(repo_display(&repos, &vec![1]), "web");
    assert_eq!(repo_display(&repos, &vec![7]), "");
    assert_eq!(repo_display(&repos, &vec![0, 1]), "2 repos");
}

#[test]
fn signed_in_user_joins_members_once() {
    let user = AuthenticatedUser {
        login: "me".into(),
        avatar_url: "u".into(),
        name: None,
    };
    let with = members_with_user(vec![User { login: "a".into(), avatar_url: String::new() }], &user);
    assert_eq!(with.len(), 2);
    assert_eq!(with[1].login, "me");
    let again = members_with_user(with, &user);
    assert_eq!(again.len(), 2);
}

#[test]
fn titles_labels_and_selection_helpers() {
    let titles = card_titles(&vec![card(4, None)]);
    assert_eq!(titles, vec![(4, "t".to_string())]);
    let mut all = vec![Label { name: "bug".into(), color: "1".into() }];
    add_labels(
        &mut all,
        vec![Label { name: "bug".into(), color: "2".into() }, Label { name: "ui".into(), color: "3".into() }],
    );
    assert_eq!(all.len(), 2);
    assert_eq!(all[0].color, "1");
    let mut selected = vec![0usize, 2];
    assert!(!toggle_repo(&mut selected, 0));
    assert_eq!(selected, vec![2]);
    assert!(toggle_repo(&mut selected, 1));
    assert_eq!(selected, vec![2, 1]);
    let names = selected_repo_names(&vec!["a".into(), "b".into(), "c".into()], &vec![2, 9, 1]);
    assert_eq!(names, vec!["c".to_string(), "b".to_string()]);
}

#[test]
fn cached_profile_serves_only_when_fresh() {
    let mut dir: BoardCache = StrMap::new();
    assert!(!use_cached_profile(&dir, 0));
    save_profile(
        &mut dir,
        AuthenticatedUser { login: "me".into(), avatar_url: String::new(), name: None },
        0,
    );
    assert!(use_cached_profile(&dir, 10));
    assert!(!use_cached_profile(&dir, 100_000_000));
}

#[test]
fn closed_card_replaces_its_twin() {
    let mut cards = vec![card(1, None), card(2, None)];
    let mut updated = card(2, None);
    updated.column.name = "Closed".into();
    replace_card(&mut cards, updated);
    assert_eq!(cards[1].column.name, "Closed");
    let mut other = card(9, None);
    other.repo = "elsewhere".into();
    replace_card(&mut cards, other);
    assert_eq!(cards.len(), 2);
}
