use kardhub::cardman::cache as cm;
use kardhub::kardhub::cache::{
    cached_card_count, clear_all_cache, clear_repo_open_cache, closed_sync_time, is_cards_fresh,
    is_labels_fresh, is_members_fresh, is_profile_fresh, is_source_map_fresh, load_cards,
    load_closed_issues, load_labels, load_members, load_merged_prs, load_open_issues, load_profile,
    load_prs, load_settings, load_source_map, merge_new, merged_sync_time, open_sync_time,
    prs_sync_time, repo_file_name, repo_open_files, save_cards, save_closed_issues, save_labels, save_members,
    save_merged_prs, save_open_issues, save_profile, save_prs, save_settings, save_source_map,
    source_key, AppSettings, BoardCache, OrgSources, SourceMap, SourceRepos, TTL_OPEN, TTL_REPOS,
    TTL_SOURCES,
};
use kardhub::kardhub::models::{
    AuthenticatedUser, Card, CardSource, CiStatus, Column, Issue, IssueState, Label, PullRequest, User,
};
use kardhub::str_map::StrMap;

fn issue(number: u64, title: &str) -> Issue {
    Issue {
        number,
        title: title.into(),
        body: None,
        labels: vec![],
        assignees: vec![],
        state: IssueState::Closed,
        sub_issues: vec![],
        author: "a".into(),
        updated_at: 0,
    }
}

fn pr(number: u64, title: &str) -> PullRequest {
    PullRequest {
        number,
        title: title.into(),
        body: None,
        draft: false,
        author: "dev".into(),
        assignees: vec![],
        requested_reviewers: vec![],
        reviews: vec![],
        ci_status: CiStatus::Pending,
        merged: true,
        closed: false,
        branch: "b".into(),
        labels: vec![],
        updated_at: 0,
    }
}

fn card(number: u64) -> Card {
    Card {
        owner: "o".into(),
        repo: "r".into(),
        source: CardSource::Issue(issue(number, "t")),
        column: Column {
            name: "Backlog".into(),
            emoji: "📥".into(),
            sort_order: 2,
        },
        priority: None,
        linked_prs: vec![],
        hidden: false,
    }
}

#[test]
fn source_key_lowercases_and_replaces() {
    assert_eq!(source_key("My-Org.Name"), "my_org_name");
    assert_eq!(source_key("Äpfel 1"), "äpfel_1");
    assert_eq!(cm::source_key("Acme Inc"), "acme_inc");
}

#[test]
fn file_names_use_keys() {
    assert_eq!(repo_file_name("closed_", "My Org", "Repo.X"), "closed_my_org_repo_x.json");
}

#[test]
fn profile_reads_back_and_ages() {
    let mut dir: BoardCache = StrMap::new();
    assert!(load_profile(&dir).is_none());
    assert!(!is_profile_fresh(&dir, 100));
    let user = AuthenticatedUser {
        login: "octocat".into(),
        avatar_url: "u".into(),
        name: Some("Mona".into()),
    };
    save_profile(&mut dir, user.clone(), 1000);
    assert_eq!(load_profile(&dir), Some(&user));
    assert!(is_profile_fresh(&dir, 1000 + TTL_REPOS - 1));
    assert!(!is_profile_fresh(&dir, 1000 + TTL_REPOS));
}

#[test]
fn source_map_reads_back() {
    let mut dir: BoardCache = StrMap::new();
    let map = SourceMap {
        personal: SourceRepos {
            owner: vec!["mine".into()],
            collaborator: vec![],
        },
        organizations: OrgSources {
            member: vec![("acme".into(), vec!["api".into()])],
            collaborator: vec![],
        },
    };
    save_source_map(&mut dir, map.clone(), 5);
    assert_eq!(load_source_map(&dir), Some(&map));
    assert!(is_source_map_fresh(&dir, 5 + TTL_SOURCES - 1));
    assert!(!is_source_map_fresh(&dir, 5 + TTL_SOURCES));
}

#[test]
fn members_and_labels_are_kept_per_key() {
    let mut dir: BoardCache = StrMap::new();
    save_members(&mut dir, "Acme", vec![User { login: "a".into(), avatar_url: String::new() }], 0);
    assert_eq!(load_members(&dir, "acme").map(|m| m.len()), Some(1));
    assert!(load_members(&dir, "other").is_none());
    assert!(is_members_fresh(&dir, "Acme", 10));
    save_labels(&mut dir, "o", "r", vec![Label { name: "bug".into(), color: "f00".into() }], 0);
    assert_eq!(load_labels(&dir, "o", "r").unwrap()[0].name, "bug");
    assert!(load_labels(&dir, "o", "other").is_none());
    assert!(is_labels_fresh(&dir, "o", "r", 10));
}

#[test]
fn closed_issues_accumulate_without_repeats() {
    let mut dir: BoardCache = StrMap::new();
    save_closed_issues(&mut dir, "o", "r", vec![issue(1, "one"), issue(2, "two")], 10);
    save_closed_issues(&mut dir, "o", "r", vec![issue(2, "two again"), issue(3, "three")], 20);
    let all = load_closed_issues(&dir, "o", "r").unwrap();
    let numbers: Vec<u64> = all.iter().map(|i| i.number).collect();
    assert_eq!(numbers, vec![1, 2, 3]);
    assert_eq!(all[1].title, "two");
    assert_eq!(closed_sync_time(&dir, "o", "r"), Some(20));
}

#[test]
fn merged_prs_accumulate_without_repeats() {
    let mut dir: BoardCache = StrMap::new();
    save_merged_prs(&mut dir, "o", "r", vec![pr(7, "a")], 1);
    save_merged_prs(&mut dir, "o", "r", vec![pr(7, "b"), pr(8, "c")], 2);
    let all = load_merged_prs(&dir, "o", "r").unwrap();
    assert_eq!(all.len(), 2);
    assert_eq!(all[0].title, "a");
    assert_eq!(merged_sync_time(&dir, "o", "r"), Some(2));
}

#[test]
fn merge_new_appends_only_new_numbers() {
    let mut existing = vec![issue(1, "x")];
    merge_new(&mut existing, vec![issue(1, "y"), issue(4, "z"), issue(4, "w")]);
    let numbers: Vec<u64> = existing.iter().map(|i| i.number).collect();
    assert_eq!(numbers, vec![1, 4]);
    assert_eq!(existing[1].title, "z");
}

#[test]
fn open_lists_are_replaced() {
    let mut dir: BoardCache = StrMap::new();
    save_open_issues(&mut dir, "o", "r", vec![issue(1, "a"), issue(2, "b")], 3);
    save_open_issues(&mut dir, "o", "r", vec![issue(9, "c")], 4);
    assert_eq!(load_open_issues(&dir, "o", "r").unwrap().len(), 1);
    assert_eq!(open_sync_time(&dir, "o", "r"), Some(4));
    save_prs(&mut dir, "o", "r", vec![pr(1, "p")], 6);
    assert_eq!(load_prs(&dir, "o", "r").unwrap().len(), 1);
    assert_eq!(prs_sync_time(&dir, "o", "r"), Some(6));
}

#[test]
fn cards_count_and_freshness() {
    let mut dir: BoardCache = StrMap::new();
    assert_eq!(cached_card_count(&dir, "o", "r"), 0);
    assert!(!is_cards_fresh(&dir, "o", "r", 0));
    save_cards(&mut dir, "o", "r", vec![card(1), card(2)], 100);
    assert_eq!(cached_card_count(&dir, "o", "r"), 2);
    assert_eq!(load_cards(&dir, "o", "r").unwrap().len(), 2);
    assert!(is_cards_fresh(&dir, "o", "r", 100 + TTL_OPEN - 1));
    assert!(!is_cards_fresh(&dir, "o", "r", 100 + TTL_OPEN));
}

#[test]
fn clearing_the_open_cache_keeps_closed_issues() {
    let mut dir: BoardCache = StrMap::new();
    save_open_issues(&mut dir, "o", "r", vec![issue(1, "a")], 1);
    save_prs(&mut dir, "o", "r", vec![pr(1, "p")], 1);
    save_cards(&mut dir, "o", "r", vec![card(1)], 1);
    save_closed_issues(&mut dir, "o", "r", vec![issue(2, "b")], 1);
    clear_repo_open_cache(&mut dir, "o", "r");
    assert!(load_open_issues(&dir, "o", "r").is_none());
    assert!(load_prs(&dir, "o", "r").is_none());
    assert!(load_cards(&dir, "o", "r").is_none());
    assert_eq!(load_closed_issues(&dir, "o", "r").unwrap().len(), 1);
    clear_all_cache(&mut dir);
    assert!(load_closed_issues(&dir, "o", "r").is_none());
}

#[test]
fn settings_default_and_read_back() {
    let mut dir: BoardCache = StrMap::new();
    let s = load_settings(&dir);
    assert!(s.token.is_none());
    assert!(s.default_repos.entries.is_empty());
    let mut settings = AppSettings::default();
    settings.token = Some("tok".into());
    settings.last_repos = vec!["api".into()];
    settings.set_default_repo("personal".into(), Some("mine".into()));
    save_settings(&mut dir, settings);
    let back = load_settings(&dir);
    assert_eq!(back.token.as_deref(), Some("tok"));
    assert_eq!(back.last_repos, vec!["api".to_string()]);
    assert_eq!(back.default_repos.get("personal"), Some(&"mine".to_string()));
    let mut again = back;
    again.set_default_repo("personal".into(), None);
    assert!(again.default_repos.get("personal").is_none());
}

#[test]
fn first_generation_cache_reads_back() {
    let mut dir: cm::CardCache = StrMap::new();
    assert!(cm::load_sources(&dir).is_none());
    cm::save_sources(&mut dir, &vec!["acme".to_string()]);
    assert_eq!(cm::load_sources(&dir), Some(vec!["acme".to_string()]));
    cm::save_repos(&mut dir, "personal", &vec!["mine".to_string()]);
    assert_eq!(cm::load_repos(&dir, "personal"), Some(vec!["mine".to_string()]));
    assert!(cm::load_repos(&dir, "acme").is_none());
    assert!(!cm::has_closed_issues(&dir, "o", "r"));
    cm::save_closed_issues(&mut dir, "o", "r", vec![]);
    assert!(cm::has_closed_issues(&dir, "o", "r"));
    cm::save_cards(&mut dir, "o", "r", vec![]);
    assert_eq!(cm::load_cards(&dir, "o", "r").map(|c| c.len()), Some(0));
    assert!(cm::load_settings(&dir).default_repos.entries.is_empty());
    let mut s = cm::AppSettings::default();
    s.default_repos.put("personal".into(), "mine".into());
    cm::save_settings(&mut dir, s);
    assert_eq!(cm::load_settings(&dir).default_repos.get("personal"), Some(&"mine".to_string()));
}

#[test]
fn str_map_reads_what_was_written() {
    let mut m: StrMap<u32> = StrMap::new();
    m.put("a".into(), 1);
    m.put("b".into(), 2);
    m.put("a".into(), 3);
    assert_eq!(m.get("a"), Some(&3));
    assert_eq!(m.get("b"), Some(&2));
    assert!(m.contains("b"));
    assert_eq!(m.take("b"), Some(2));
    assert!(!m.contains("b"));
    assert_eq!(m.get("a"), Some(&3));
    m.clear();
    assert!(m.get("a").is_none());
}

#[test]
fn repo_open_files_are_the_incremental_ones() {
    assert_eq!(
        repo_open_files("My Org", "Repo.X"),
        vec![
            "open_my_org_repo_x.json".to_string(),
            "cards_my_org_repo_x.json".to_string(),
            "prs_my_org_repo_x.json".to_string(),
        ]
    );
}

#[test]
fn source_key_holds_only_alphanumerics_and_underscores() {
    for name in ["Héllo Wörld!", "ÅÄÖ-123", "a\tb\u{3000}c", "___", ""] {
        let key = kardhub::kardhub::cache::source_key(name);
        assert_eq!(key.chars().count(), name.to_lowercase().chars().count());
        assert!(key.chars().all(|c| c == '_' || c.is_alphanumeric()));
    }
    assert_eq!(kardhub::kardhub::cache::source_key("Héllo Wörld!"), "héllo_wörld_");
}

#[test]
fn whitespace_test_agrees_with_std() {
    for n in 0u32..=0x10FFFF {
        if let Some(c) = char::from_u32(n) {
            assert_eq!(kardhub::text::is_whitespace(c), c.is_whitespace(), "U+{n:04X}");
        }
    }
}
