//! The local cache of the board: sources, profile, members, labels, open and
//! closed issues, open and merged PRs, cards and settings, each in a file of
//! its own named after the data and, where it has one, its repository.
//!
//! Each data type has its own TTL. Closed issues and merged PRs are cached
//! cumulatively: new entries are appended and deduplicated by number. Sync
//! times (seconds since the Unix epoch) are stored beside the data.
use vstd::prelude::*;

use crate::str_map::{lookup, StrMap};
use crate::kardhub::models::{AuthenticatedUser, Card, Issue, Label, PullRequest, User};
use crate::order::{insert_unique, lex_lt, strictly_sorted};
use crate::text::{
    append_str, copy_str, copy_strings, is_alphanumeric, push_char, str_eq, to_lowercase,
    unicode_alphanumeric, unicode_lowercase, views,
};

verus! {

// ── Per-type TTL constants (seconds) ────────────────────────────────

/// Organization list: 6 months.
pub const TTL_SOURCES: i64 = 180 * 24 * 60 * 60;

/// Repository list and profile: 1 month.
pub const TTL_REPOS: i64 = 30 * 24 * 60 * 60;

/// Open issues / open PRs / cards: 3 hours.
pub const TTL_OPEN: i64 = 3 * 60 * 60;

/// Labels: 1 month.
pub const TTL_LABELS: i64 = 30 * 24 * 60 * 60;

// ── Settings and source map ─────────────────────────────────────────

/// User-configurable defaults persisted across sessions.
#[derive(Debug, Clone)]
pub struct AppSettings {
    /// Default repository name per source key (e.g. `"personal"` → `"my-repo"`).
    pub default_repos: StrMap<String>,
    /// Persisted GitHub PAT for auto-login.
    pub token: Option<String>,
    /// Last active source (`"personal"` or org name).
    pub last_source: Option<String>,
    /// Last selected repository names.
    pub last_repos: Vec<String>,
}

impl Default for AppSettings {
    /// No defaults, no token, no last source, no selected repositories.
    fn default() -> (s: Self)
        ensures
            s.default_repos.entries@.len() == 0,
            s.token is None,
            s.last_source is None,
            s.last_repos@.len() == 0,
    {
        AppSettings { default_repos: StrMap::new(), token: None, last_source: None, last_repos: Vec::new() }
    }
}

/// Two settings hold the same values.
pub open spec fn same_settings(a: AppSettings, b: AppSettings) -> bool {
    &&& a.default_repos.entries@ == b.default_repos.entries@
    &&& a.token == b.token
    &&& a.last_source == b.last_source
    &&& a.last_repos@ == b.last_repos@
}

impl AppSettings {
    /// A copy of these settings.
    pub fn copy(&self) -> (s: AppSettings)
        ensures
            same_settings(s, *self),
    {
        AppSettings {
            default_repos: self.default_repos.copy(),
            token: match &self.token {
                Some(t) => Some(t.clone()),
                None => None,
            },
            last_source: match &self.last_source {
                Some(t) => Some(t.clone()),
                None => None,
            },
            last_repos: copy_strings(&self.last_repos),
        }
    }

    /// Sets, or with `None` clears, the default repository of a source key.
    pub fn set_default_repo(&mut self, key: String, repo: Option<String>)
        ensures
            forall|other: Seq<char>|
                #![trigger lookup(final(self).default_repos.entries@, other)]
                lookup(final(self).default_repos.entries@, other) == (if other == key@ {
                    repo
                } else {
                    lookup(old(self).default_repos.entries@, other)
                }),
            final(self).token == old(self).token,
            final(self).last_source == old(self).last_source,
            final(self).last_repos@ == old(self).last_repos@,
    {
        match repo {
            Some(name) => self.default_repos.put(key, name),
            None => {
                let _ = self.default_repos.take(key.as_str());
            },
        }
    }
}

/// Data stored with the time it was synced.
#[derive(Debug, Clone)]
pub struct Timestamped<T> {
    /// Sync time, in seconds since the Unix epoch.
    pub synced_at: i64,
    /// The cached data.
    pub data: T,
}

/// Personal repos categorized by the user's relationship.
#[derive(Debug, Clone, PartialEq)]
pub struct SourceRepos {
    /// Repos owned by the authenticated user.
    pub owner: Vec<String>,
    /// Repos where the user is an outside collaborator.
    pub collaborator: Vec<String>,
}

impl SourceRepos {
    /// Flat list combining owner and collaborator repos.
    pub fn all_repos(&self) -> (repos: Vec<String>)
        ensures
            repos@ == self.owner@ + self.collaborator@,
    {
        let mut repos = copy_strings(&self.owner);
        let mut i: usize = 0;
        while i < self.collaborator.len()
            invariant
                i <= self.collaborator.len(),
                repos@ == self.owner@ + self.collaborator@.take(i as int),
            decreases self.collaborator.len() - i,
        {
            repos.push(self.collaborator[i].clone());
            assert(self.owner@ + self.collaborator@.take(i + 1) =~= (self.owner@
                + self.collaborator@.take(i as int)).push(self.collaborator@[i as int]));
            i = i + 1;
        }
        assert(self.collaborator@.take(self.collaborator.len() as int) =~= self.collaborator@);
        repos
    }
}

/// Organization repos split by membership relationship, as (org login,
/// repository names) pairs. Each org login appears under one category.
#[derive(Debug, Clone, PartialEq)]
pub struct OrgSources {
    /// Orgs where the user is a member.
    pub member: Vec<(String, Vec<String>)>,
    /// Orgs where the user is an outside collaborator.
    pub collaborator: Vec<(String, Vec<String>)>,
}

/// Unified source map: all accessible repos grouped by source (personal vs
/// organization) and by the user's relationship.
#[derive(Debug, Clone, PartialEq)]
pub struct SourceMap {
    /// Personal repositories grouped by relationship.
    pub personal: SourceRepos,
    /// Organization repositories split by member/collaborator.
    pub organizations: OrgSources,
}

impl Default for SourceMap {
    /// No repositories and no organizations.
    fn default() -> (m: Self)
        ensures
            m.personal.owner@.len() == 0,
            m.personal.collaborator@.len() == 0,
            m.organizations.member@.len() == 0,
            m.organizations.collaborator@.len() == 0,
    {
        SourceMap {
            personal: SourceRepos { owner: Vec::new(), collaborator: Vec::new() },
            organizations: OrgSources { member: Vec::new(), collaborator: Vec::new() },
        }
    }
}

/// Whether some org of `orgs` has the login `login`.
pub open spec fn has_org(orgs: Seq<(String, Vec<String>)>, login: Seq<char>) -> bool {
    exists|i: int| 0 <= i < orgs.len() && (#[trigger] orgs[i]).0@ == login
}

/// The position of the first org with the login `login`.
pub open spec fn org_position(orgs: Seq<(String, Vec<String>)>, login: Seq<char>) -> Option<int>
    decreases orgs.len(),
{
    if orgs.len() == 0 {
        None
    } else {
        match org_position(orgs.drop_last(), login) {
            Some(i) => Some(i),
            None => if orgs.last().0@ == login {
                Some(orgs.len() - 1)
            } else {
                None
            },
        }
    }
}

/// The repositories of the org `login`, if it is listed.
pub open spec fn org_repos(orgs: Seq<(String, Vec<String>)>, login: Seq<char>) -> Option<Seq<String>> {
    match org_position(orgs, login) {
        Some(i) => Some(orgs[i].1@),
        None => None,
    }
}

/// The repository names a sidebar source shows: personal repositories for
/// `personal`, else those of the member org, else those of the
/// collaborator org of that login, else none.
pub open spec fn source_repos(m: SourceMap, source: Seq<char>) -> Seq<String> {
    if source == "personal"@ {
        m.personal.owner@ + m.personal.collaborator@
    } else {
        match org_repos(m.organizations.member@, source) {
            Some(r) => r,
            None => match org_repos(m.organizations.collaborator@, source) {
                Some(r) => r,
                None => Seq::empty(),
            },
        }
    }
}

/// The position of the first org named `login`.
fn find_org(orgs: &Vec<(String, Vec<String>)>, login: &str) -> (r: Option<usize>)
    ensures
        match r {
            Some(i) => i < orgs@.len() && org_position(orgs@, login@) == Some(i as int),
            None => org_position(orgs@, login@) is None,
        },
{
    let mut i: usize = 0;
    while i < orgs.len()
        invariant
            i <= orgs.len(),
            org_position(orgs@.take(i as int), login@) is None,
        decreases orgs.len() - i,
    {
        assert(orgs@.take(i + 1).drop_last() =~= orgs@.take(i as int));
        if str_eq(orgs[i].0.as_str(), login) {
            proof {
                assert(orgs@.take(i + 1).last() == orgs@[i as int]);
                lemma_org_position_prefix(orgs@, login@, i + 1);
            }
            return Some(i);
        }
        i = i + 1;
    }
    assert(orgs@.take(orgs.len() as int) =~= orgs@);
    None
}

proof fn lemma_org_position_prefix(orgs: Seq<(String, Vec<String>)>, login: Seq<char>, n: int)
    requires
        0 <= n <= orgs.len(),
        org_position(orgs.take(n), login) is Some,
    ensures
        org_position(orgs, login) == org_position(orgs.take(n), login),
    decreases orgs.len() - n,
{
    if n < orgs.len() {
        assert(orgs.take(n + 1).drop_last() =~= orgs.take(n));
        lemma_org_position_prefix(orgs, login, n + 1);
    } else {
        assert(orgs.take(n) =~= orgs);
    }
}

/// The org logins of a map, in order.
pub open spec fn org_keys(orgs: Seq<(String, Vec<String>)>) -> Seq<Seq<char>> {
    orgs.map_values(|e: (String, Vec<String>)| e.0@)
}

/// An org map keeps its logins in strictly ascending order, so that each
/// login appears once (as the keys of an ordered map do).
pub open spec fn wf_org_map(orgs: Seq<(String, Vec<String>)>) -> bool {
    strictly_sorted(org_keys(orgs))
}

impl OrgSources {
    /// Both maps are ordered by login, and no login is under both.
    pub open spec fn wf(&self) -> bool {
        &&& wf_org_map(self.member@)
        &&& wf_org_map(self.collaborator@)
        &&& forall|login: Seq<char>| !(has_org(self.member@, login) && has_org(self.collaborator@, login))
    }
}

/// The position found for a login holds that login, and no earlier one
/// does; where none is found, no entry has the login.
pub proof fn lemma_org_position(orgs: Seq<(String, Vec<String>)>, login: Seq<char>)
    ensures
        org_position(orgs, login) matches Some(i) ==> 0 <= i < orgs.len() && orgs[i].0@ == login,
        org_position(orgs, login) is None ==> forall|k: int|
            0 <= k < orgs.len() ==> (#[trigger] orgs[k]).0@ != login,
    decreases orgs.len(),
{
    if orgs.len() > 0 {
        lemma_org_position(orgs.drop_last(), login);
        if org_position(orgs, login) is None {
            assert forall|k: int| 0 <= k < orgs.len() implies (#[trigger] orgs[k]).0@ != login by {
                if k < orgs.len() - 1 {
                    assert(orgs[k] == orgs.drop_last()[k]);
                }
            }
        }
    }
}

/// In a well-formed map the entry holding a login is the one found for it.
pub proof fn lemma_org_position_unique(orgs: Seq<(String, Vec<String>)>, login: Seq<char>, i: int)
    requires
        wf_org_map(orgs),
        0 <= i < orgs.len(),
        orgs[i].0@ == login,
    ensures
        org_position(orgs, login) == Some(i),
{
    lemma_org_position(orgs, login);
    match org_position(orgs, login) {
        Some(j) => {
            if j != i {
                assert(org_keys(orgs)[i] == login && org_keys(orgs)[j] == login);
                crate::order::lemma_lex_irreflexive(login);
                if i < j {
                    assert(lex_lt(org_keys(orgs)[i], org_keys(orgs)[j]));
                } else {
                    assert(lex_lt(org_keys(orgs)[j], org_keys(orgs)[i]));
                }
            }
        },
        None => {},
    }
}

/// In a well-formed org map each login appears once, and looking a login up
/// finds the one entry that holds it.
pub proof fn law_org_keys_unique(orgs: Seq<(String, Vec<String>)>)
    requires
        wf_org_map(orgs),
    ensures
        org_keys(orgs).no_duplicates(),
        forall|i: int| 0 <= i < orgs.len() ==> org_position(orgs, (#[trigger] orgs[i]).0@) == Some(i),
{
    assert forall|i: int, j: int|
        0 <= i < org_keys(orgs).len() && 0 <= j < org_keys(orgs).len() && i != j implies
        org_keys(orgs)[i] != org_keys(orgs)[j] by {
        if org_keys(orgs)[i] == org_keys(orgs)[j] {
            lemma_org_position_unique(orgs, orgs[i].0@, i);
            lemma_org_position_unique(orgs, orgs[i].0@, j);
        }
    }
    assert forall|i: int| 0 <= i < orgs.len() implies org_position(orgs, (#[trigger] orgs[i]).0@) == Some(i) by {
        lemma_org_position_unique(orgs, orgs[i].0@, i);
    }
}

/// Adds the org logins of `orgs` to strictly ascending `names`.
fn add_org_names(names: &mut Vec<String>, orgs: &Vec<(String, Vec<String>)>)
    requires
        strictly_sorted(views(old(names)@)),
    ensures
        strictly_sorted(views(final(names)@)),
        forall|s: Seq<char>|
            #![trigger views(final(names)@).contains(s)]
            views(final(names)@).contains(s) <==> (views(old(names)@).contains(s) || has_org(orgs@, s)),
{
    let ghost start = views(names@);
    let mut i: usize = 0;
    while i < orgs.len()
        invariant
            i <= orgs.len(),
            strictly_sorted(views(names@)),
            forall|s: Seq<char>|
                #![trigger views(names@).contains(s)]
                views(names@).contains(s) <==> (start.contains(s) || has_org(orgs@.take(i as int), s)),
        decreases orgs.len() - i,
    {
        let ghost before = views(names@);
        insert_unique(names, orgs[i].0.clone());
        assert forall|s: Seq<char>|
            #![trigger views(names@).contains(s)]
            views(names@).contains(s) <==> (start.contains(s) || has_org(orgs@.take(i + 1), s)) by {
            if has_org(orgs@.take(i + 1), s) {
                let k = choose|k: int| 0 <= k < orgs@.take(i + 1).len() && (#[trigger] orgs@.take(i + 1)[k]).0@ == s;
                if k < i {
                    assert(orgs@.take(i as int)[k] == orgs@.take(i + 1)[k]);
                    assert(before.contains(s));
                }
            }
            if has_org(orgs@.take(i as int), s) {
                let k = choose|k: int| 0 <= k < orgs@.take(i as int).len() && (#[trigger] orgs@.take(i as int)[k]).0@ == s;
                assert(orgs@.take(i + 1)[k] == orgs@.take(i as int)[k]);
            }
            if s == orgs@[i as int].0@ {
                assert(orgs@.take(i + 1)[i as int] == orgs@[i as int]);
            }
            if before.contains(s) {
            }
        }
        i = i + 1;
    }
    assert(orgs@.take(orgs.len() as int) =~= orgs@);
}

impl SourceMap {
    /// Sorted list of all organization logins (member + collaborator).
    pub fn org_names(&self) -> (names: Vec<String>)
        ensures
            strictly_sorted(views(names@)),
            forall|s: Seq<char>|
                #![trigger views(names@).contains(s)]
                views(names@).contains(s) <==> (has_org(self.organizations.member@, s) || has_org(
                    self.organizations.collaborator@,
                    s,
                )),
    {
        let mut names: Vec<String> = Vec::new();
        assert(views(names@) =~= Seq::empty());
        add_org_names(&mut names, &self.organizations.member);
        add_org_names(&mut names, &self.organizations.collaborator);
        names
    }

    /// Flat repo-name list for a given sidebar source.
    pub fn repos_for_source(&self, source: &str) -> (repos: Vec<String>)
        ensures
            repos@ == source_repos(*self, source@),
    {
        if str_eq(source, "personal") {
            self.personal.all_repos()
        } else {
            match find_org(&self.organizations.member, source) {
                Some(i) => copy_strings(&self.organizations.member[i].1),
                None => match find_org(&self.organizations.collaborator, source) {
                    Some(j) => copy_strings(&self.organizations.collaborator[j].1),
                    None => Vec::new(),
                },
            }
        }
    }
}

// ── File names ──────────────────────────────────────────────────────

/// The key of a source name: lower-cased, with every character that is not
/// alphanumeric replaced by `_`.
pub open spec fn key_of(name: Seq<char>) -> Seq<char> {
    underscore_non_alnum(unicode_lowercase(name))
}

/// `s` with every character that is not alphanumeric replaced by `_`.
pub open spec fn underscore_non_alnum(s: Seq<char>) -> Seq<char> {
    Seq::new(s.len(), |i: int| if unicode_alphanumeric(s[i]) { s[i] } else { '_' })
}

/// A source key holds only `_` and alphanumeric characters, one for each
/// character of the lower-cased name, and keeps the alphanumeric ones; and
/// replacing the non-alphanumeric characters of a key again changes nothing.
pub proof fn law_source_key_shape(name: Seq<char>)
    ensures
        key_of(name).len() == unicode_lowercase(name).len(),
        forall|i: int|
            0 <= i < key_of(name).len() ==> (#[trigger] key_of(name)[i] == '_' || unicode_alphanumeric(
                key_of(name)[i],
            )),
        forall|i: int|
            0 <= i < key_of(name).len() && unicode_alphanumeric(unicode_lowercase(name)[i])
                ==> #[trigger] key_of(name)[i] == unicode_lowercase(name)[i],
        underscore_non_alnum(key_of(name)) == key_of(name),
{
    assert(underscore_non_alnum(key_of(name)) =~= key_of(name));
}

/// Build the key string for a source (used in filenames).
pub fn source_key(source_name: &str) -> (key: String)
    ensures
        key@ == key_of(source_name@),
{
    let lower = to_lowercase(source_name);
    let cs = crate::text::chars_of(lower.as_str());
    let mut key = String::new();
    let mut i: usize = 0;
    while i < cs.len()
        invariant
            i <= cs.len(),
            cs@ == unicode_lowercase(source_name@),
            key@ == key_of(source_name@).take(i as int),
        decreases cs.len() - i,
    {
        let c = cs[i];
        if is_alphanumeric(c) {
            push_char(&mut key, c);
        } else {
            push_char(&mut key, '_');
        }
        assert(key@ =~= key_of(source_name@).take(i + 1));
        i = i + 1;
    }
    assert(key@ =~= key_of(source_name@));
    key
}

/// The name of a per-repository file: `{prefix}{owner key}_{repo key}.json`.
pub open spec fn repo_file(prefix: Seq<char>, owner: Seq<char>, repo: Seq<char>) -> Seq<char> {
    prefix + key_of(owner) + "_"@ + key_of(repo) + ".json"@
}

/// The name of a per-repository file.
pub fn repo_file_name(prefix: &str, owner: &str, repo: &str) -> (name: String)
    ensures
        name@ == repo_file(prefix@, owner@, repo@),
{
    let mut name = copy_str(prefix);
    let ko = source_key(owner);
    append_str(&mut name, ko.as_str());
    append_str(&mut name, "_");
    let kr = source_key(repo);
    append_str(&mut name, kr.as_str());
    append_str(&mut name, ".json");
    name
}

/// The name of an organization's members file.
pub open spec fn members_file(org: Seq<char>) -> Seq<char> {
    "members_"@ + key_of(org) + ".json"@
}

/// The name of an organization's members file.
pub fn members_file_name(org: &str) -> (name: String)
    ensures
        name@ == members_file(org@),
{
    let mut name = copy_str("members_");
    let k = source_key(org);
    append_str(&mut name, k.as_str());
    append_str(&mut name, ".json");
    name
}

// ── Cache entries ───────────────────────────────────────────────────

/// What one cache file holds.
#[derive(Debug, Clone)]
pub enum CacheEntry {
    /// The unified source map.
    SourceMap(Timestamped<SourceMap>),
    /// The authenticated user's profile.
    Profile(Timestamped<AuthenticatedUser>),
    /// An organization's members and collaborators.
    Members(Timestamped<Vec<User>>),
    /// A repository's labels.
    Labels(Timestamped<Vec<Label>>),
    /// Open or closed issues of a repository.
    Issues(Timestamped<Vec<Issue>>),
    /// Open or merged/closed PRs of a repository.
    PullRequests(Timestamped<Vec<PullRequest>>),
    /// A repository's board cards.
    Cards(Timestamped<Vec<Card>>),
    /// The app settings.
    Settings(AppSettings),
}

/// The cache directory of the board.
pub type BoardCache = StrMap<CacheEntry>;

/// The sync time of a timestamped entry.
pub open spec fn synced_at(e: Option<CacheEntry>) -> Option<i64> {
    match e {
        Some(CacheEntry::SourceMap(t)) => Some(t.synced_at),
        Some(CacheEntry::Profile(t)) => Some(t.synced_at),
        Some(CacheEntry::Members(t)) => Some(t.synced_at),
        Some(CacheEntry::Labels(t)) => Some(t.synced_at),
        Some(CacheEntry::Issues(t)) => Some(t.synced_at),
        Some(CacheEntry::PullRequests(t)) => Some(t.synced_at),
        Some(CacheEntry::Cards(t)) => Some(t.synced_at),
        _ => None,
    }
}

/// A timestamped entry is fresh at time `now` when it was synced less than
/// `ttl` seconds before.
pub open spec fn fresh(e: Option<CacheEntry>, ttl: i64, now: i64) -> bool {
    match synced_at(e) {
        Some(t) => now - t < ttl,
        None => false,
    }
}

/// The sync time of the file named `name`.
fn sync_time_of(dir: &BoardCache, name: &str) -> (r: Option<i64>)
    ensures
        r == synced_at(lookup(dir.entries@, name@)),
{
    match dir.get(name) {
        Some(CacheEntry::SourceMap(t)) => Some(t.synced_at),
        Some(CacheEntry::Profile(t)) => Some(t.synced_at),
        Some(CacheEntry::Members(t)) => Some(t.synced_at),
        Some(CacheEntry::Labels(t)) => Some(t.synced_at),
        Some(CacheEntry::Issues(t)) => Some(t.synced_at),
        Some(CacheEntry::PullRequests(t)) => Some(t.synced_at),
        Some(CacheEntry::Cards(t)) => Some(t.synced_at),
        _ => None,
    }
}

/// Check whether a timestamped cache file is fresh (synced within `ttl`).
fn is_ts_fresh(dir: &BoardCache, name: &str, ttl: i64, now: i64) -> (b: bool)
    ensures
        b == fresh(lookup(dir.entries@, name@), ttl, now),
{
    match sync_time_of(dir, name) {
        Some(t) => (now as i128) - (t as i128) < (ttl as i128),
        None => false,
    }
}

/// Every file other than `name` is as it was.
pub open spec fn others_unchanged(before: BoardCache, after: BoardCache, name: Seq<char>) -> bool {
    forall|other: Seq<char>|
        #![trigger lookup(after.entries@, other)]
        other != name ==> lookup(after.entries@, other) == lookup(before.entries@, other)
}

// ── Source map ──────────────────────────────────────────────────────

/// The source map a cache holds.
pub open spec fn cached_source_map(files: Seq<(String, CacheEntry)>) -> Option<SourceMap> {
    match lookup(files, "source_map.json"@) {
        Some(CacheEntry::SourceMap(t)) => Some(t.data),
        _ => None,
    }
}

/// Load cached source map.
pub fn load_source_map(dir: &BoardCache) -> (r: Option<&SourceMap>)
    ensures
        match r {
            Some(m) => cached_source_map(dir.entries@) == Some(*m),
            None => cached_source_map(dir.entries@) is None,
        },
{
    match dir.get("source_map.json") {
        Some(CacheEntry::SourceMap(t)) => Some(&t.data),
        _ => None,
    }
}

/// Save source map to cache, synced at `now`.
pub fn save_source_map(dir: &mut BoardCache, map: SourceMap, now: i64)
    ensures
        lookup(final(dir).entries@, "source_map.json"@) == Some(
            CacheEntry::SourceMap(Timestamped { synced_at: now, data: map }),
        ),
        cached_source_map(final(dir).entries@) == Some(map),
        others_unchanged(*old(dir), *final(dir), "source_map.json"@),
{
    dir.put(copy_str("source_map.json"), CacheEntry::SourceMap(Timestamped { synced_at: now, data: map }));
}

/// Check whether source map cache is fresh (< 6 months).
pub fn is_source_map_fresh(dir: &BoardCache, now: i64) -> (b: bool)
    ensures
        b == fresh(lookup(dir.entries@, "source_map.json"@), TTL_SOURCES, now),
{
    is_ts_fresh(dir, "source_map.json", TTL_SOURCES, now)
}

// ── Profile (authenticated user) ────────────────────────────────────

/// The profile a cache holds.
pub open spec fn cached_profile(files: Seq<(String, CacheEntry)>) -> Option<AuthenticatedUser> {
    match lookup(files, "profile.json"@) {
        Some(CacheEntry::Profile(t)) => Some(t.data),
        _ => None,
    }
}

/// Load cached authenticated user profile.
pub fn load_profile(dir: &BoardCache) -> (r: Option<&AuthenticatedUser>)
    ensures
        match r {
            Some(u) => cached_profile(dir.entries@) == Some(*u),
            None => cached_profile(dir.entries@) is None,
        },
{
    match dir.get("profile.json") {
        Some(CacheEntry::Profile(t)) => Some(&t.data),
        _ => None,
    }
}

/// Save authenticated user profile to cache, synced at `now`.
pub fn save_profile(dir: &mut BoardCache, user: AuthenticatedUser, now: i64)
    ensures
        lookup(final(dir).entries@, "profile.json"@) == Some(
            CacheEntry::Profile(Timestamped { synced_at: now, data: user }),
        ),
        cached_profile(final(dir).entries@) == Some(user),
        others_unchanged(*old(dir), *final(dir), "profile.json"@),
{
    dir.put(copy_str("profile.json"), CacheEntry::Profile(Timestamped { synced_at: now, data: user }));
}

/// Check whether profile cache is fresh (< 1 month).
pub fn is_profile_fresh(dir: &BoardCache, now: i64) -> (b: bool)
    ensures
        b == fresh(lookup(dir.entries@, "profile.json"@), TTL_REPOS, now),
{
    is_ts_fresh(dir, "profile.json", TTL_REPOS, now)
}

// ── Members ─────────────────────────────────────────────────────────

/// The members a cache holds for the file `name`.
pub open spec fn cached_members(files: Seq<(String, CacheEntry)>, name: Seq<char>) -> Option<Vec<User>> {
    match lookup(files, name) {
        Some(CacheEntry::Members(t)) => Some(t.data),
        _ => None,
    }
}

/// Save organization members and collaborators, synced at `now`.
pub fn save_members(dir: &mut BoardCache, org: &str, members: Vec<User>, now: i64)
    ensures
        lookup(final(dir).entries@, members_file(org@)) == Some(
            CacheEntry::Members(Timestamped { synced_at: now, data: members }),
        ),
        cached_members(final(dir).entries@, members_file(org@)) == Some(members),
        others_unchanged(*old(dir), *final(dir), members_file(org@)),
{
    let name = members_file_name(org);
    dir.put(name, CacheEntry::Members(Timestamped { synced_at: now, data: members }));
}

/// Load cached organization members and collaborators.
pub fn load_members<'a>(dir: &'a BoardCache, org: &str) -> (r: Option<&'a Vec<User>>)
    ensures
        match r {
            Some(m) => cached_members(dir.entries@, members_file(org@)) == Some(*m),
            None => cached_members(dir.entries@, members_file(org@)) is None,
        },
{
    let name = members_file_name(org);
    match dir.get(name.as_str()) {
        Some(CacheEntry::Members(t)) => Some(&t.data),
        _ => None,
    }
}

/// Check whether members cache is fresh (< 1 month).
pub fn is_members_fresh(dir: &BoardCache, org: &str, now: i64) -> (b: bool)
    ensures
        b == fresh(lookup(dir.entries@, members_file(org@)), TTL_REPOS, now),
{
    let name = members_file_name(org);
    is_ts_fresh(dir, name.as_str(), TTL_REPOS, now)
}

// ── Labels ──────────────────────────────────────────────────────────

/// The labels a cache holds for the file `name`.
pub open spec fn cached_labels(files: Seq<(String, CacheEntry)>, name: Seq<char>) -> Option<Vec<Label>> {
    match lookup(files, name) {
        Some(CacheEntry::Labels(t)) => Some(t.data),
        _ => None,
    }
}

/// Save repository labels, synced at `now`.
pub fn save_labels(dir: &mut BoardCache, owner: &str, repo: &str, labels: Vec<Label>, now: i64)
    ensures
        lookup(final(dir).entries@, repo_file("labels_"@, owner@, repo@)) == Some(
            CacheEntry::Labels(Timestamped { synced_at: now, data: labels }),
        ),
        cached_labels(final(dir).entries@, repo_file("labels_"@, owner@, repo@)) == Some(labels),
        others_unchanged(*old(dir), *final(dir), repo_file("labels_"@, owner@, repo@)),
{
    let name = repo_file_name("labels_", owner, repo);
    dir.put(name, CacheEntry::Labels(Timestamped { synced_at: now, data: labels }));
}

/// Load cached repository labels.
pub fn load_labels<'a>(dir: &'a BoardCache, owner: &str, repo: &str) -> (r: Option<&'a Vec<Label>>)
    ensures
        match r {
            Some(l) => cached_labels(dir.entries@, repo_file("labels_"@, owner@, repo@)) == Some(*l),
            None => cached_labels(dir.entries@, repo_file("labels_"@, owner@, repo@)) is None,
        },
{
    let name = repo_file_name("labels_", owner, repo);
    match dir.get(name.as_str()) {
        Some(CacheEntry::Labels(t)) => Some(&t.data),
        _ => None,
    }
}

/// Check whether labels cache is fresh (< 1 month).
pub fn is_labels_fresh(dir: &BoardCache, owner: &str, repo: &str, now: i64) -> (b: bool)
    ensures
        b == fresh(lookup(dir.entries@, repo_file("labels_"@, owner@, repo@)), TTL_LABELS, now),
{
    let name = repo_file_name("labels_", owner, repo);
    is_ts_fresh(dir, name.as_str(), TTL_LABELS, now)
}


// ── Cumulative lists ────────────────────────────────────────────────

/// Items that carry a number which tells them apart within a repository.
pub trait Numbered {
    /// The item's number.
    spec fn key(&self) -> u64;

    /// The item's number.
    fn number_of(&self) -> (n: u64)
        ensures
            n == self.key(),
    ;
}

impl Numbered for Issue {
    open spec fn key(&self) -> u64 {
        self.number
    }

    fn number_of(&self) -> (n: u64) {
        self.number
    }
}

impl Numbered for PullRequest {
    open spec fn key(&self) -> u64 {
        self.number
    }

    fn number_of(&self) -> (n: u64) {
        self.number
    }
}

/// Whether some item of `items` has the number `n`.
pub open spec fn has_number<T: Numbered>(items: Seq<T>, n: u64) -> bool {
    exists|k: int| 0 <= k < items.len() && (#[trigger] items[k]).key() == n
}

/// `existing` followed by each item of `new` whose number is not yet
/// present, in the order of `new`.
pub open spec fn merge_by_number<T: Numbered>(existing: Seq<T>, new: Seq<T>) -> Seq<T>
    decreases new.len(),
{
    if new.len() == 0 {
        existing
    } else {
        let m = merge_by_number(existing, new.drop_last());
        if has_number(m, new.last().key()) {
            m
        } else {
            m.push(new.last())
        }
    }
}

/// No two items share a number.
pub open spec fn unique_numbers<T: Numbered>(items: Seq<T>) -> bool {
    forall|i: int, j: int|
        0 <= i < items.len() && 0 <= j < items.len() && i != j ==> (#[trigger] items[i]).key()
            != (#[trigger] items[j]).key()
}

/// Whether some item of `items` has the number `n`.
pub fn any_has_number<T: Numbered>(items: &Vec<T>, n: u64) -> (b: bool)
    ensures
        b == has_number(items@, n),
{
    let mut i: usize = 0;
    while i < items.len()
        invariant
            i <= items.len(),
            forall|k: int| 0 <= k < i ==> (#[trigger] items@[k]).key() != n,
        decreases items.len() - i,
    {
        if items[i].number_of() == n {
            return true;
        }
        i = i + 1;
    }
    false
}

/// Appends to `existing` each item of `new` whose number is not yet present.
pub fn merge_new<T: Numbered>(existing: &mut Vec<T>, new: Vec<T>)
    ensures
        final(existing)@ == merge_by_number(old(existing)@, new@),
{
    let ghost start = existing@;
    let ghost all = new@;
    for item in it: new.into_iter()
        invariant
            it.seq() == all,
            existing@ == merge_by_number(start, all.take(it.index() as int)),
    {
        let ghost k = it.index();
        assert(all[k as int] == item);
        assert(all.take(k + 1).drop_last() =~= all.take(k as int));
        assert(all.take(k + 1).last() == item);
        if !any_has_number(existing, item.number_of()) {
            existing.push(item);
        }
    }
    assert(all.take(all.len() as int) =~= all);
}

/// Merging keeps every existing item in place, adds only items of `new`,
/// and leaves every number of `new` present; where `existing` had no
/// number twice, the result has none twice.
pub proof fn law_merge_by_number<T: Numbered>(existing: Seq<T>, new: Seq<T>)
    ensures
        merge_by_number(existing, new).len() >= existing.len(),
        merge_by_number(existing, new).take(existing.len() as int) == existing,
        forall|k: int|
            existing.len() <= k < merge_by_number(existing, new).len() ==> new.contains(
                #[trigger] merge_by_number(existing, new)[k],
            ),
        forall|k: int|
            0 <= k < new.len() ==> has_number(merge_by_number(existing, new), (#[trigger] new[k]).key()),
        unique_numbers(existing) ==> unique_numbers(merge_by_number(existing, new)),
    decreases new.len(),
{
    if new.len() > 0 {
        let d = new.drop_last();
        law_merge_by_number(existing, d);
        let m = merge_by_number(existing, d);
        let r = merge_by_number(existing, new);
        assert forall|k: int| existing.len() <= k < r.len() implies new.contains(#[trigger] r[k]) by {
            if k < m.len() {
                assert(d.contains(m[k]));
                let j = choose|j: int| 0 <= j < d.len() && d[j] == m[k];
                assert(new[j] == d[j]);
            } else {
                assert(new[new.len() - 1] == new.last());
            }
        }
        assert forall|k: int| 0 <= k < new.len() implies has_number(r, (#[trigger] new[k]).key()) by {
            if k < d.len() {
                assert(d[k] == new[k]);
                assert(has_number(m, d[k].key()));
                let j = choose|j: int| 0 <= j < m.len() && (#[trigger] m[j]).key() == d[k].key();
                assert(r[j] == m[j]);
            } else if !has_number(m, new.last().key()) {
                assert(r[m.len() as int] == new.last());
            }
        }
        assert(r.take(existing.len() as int) =~= m.take(existing.len() as int));
    } else {
        assert(existing.take(existing.len() as int) =~= existing);
    }
}

/// Each item merging adds carries a number that no item before it has.
proof fn lemma_merge_adds_fresh_numbers<T: Numbered>(existing: Seq<T>, new: Seq<T>)
    ensures
        forall|k: int, j: int|
            existing.len() <= k < merge_by_number(existing, new).len() && 0 <= j < k ==> (
            #[trigger] merge_by_number(existing, new)[j]).key() != (
            #[trigger] merge_by_number(existing, new)[k]).key(),
    decreases new.len(),
{
    if new.len() > 0 {
        let d = new.drop_last();
        lemma_merge_adds_fresh_numbers(existing, d);
        law_merge_by_number(existing, d);
        let m = merge_by_number(existing, d);
        let r = merge_by_number(existing, new);
        assert forall|k: int, j: int|
            existing.len() <= k < r.len() && 0 <= j < k implies (#[trigger] r[j]).key() != (
            #[trigger] r[k]).key() by {
            if k < m.len() {
                assert(r[j] == m[j] && r[k] == m[k]);
            } else {
                assert(r[j] == m[j]);
                assert(!has_number(m, new.last().key()));
            }
        }
    }
}

/// Saving newly closed issues keeps the cached ones in place; afterwards
/// every new issue's number is in the list; and an issue is added exactly
/// when no issue already listed (cached, or added before it) has its
/// number, so the added issues are new ones and never repeat a number.
pub proof fn law_closed_issues_merge_by_exact_number(existing: Seq<Issue>, new: Seq<Issue>)
    ensures
        merge_by_number(existing, new).take(existing.len() as int) == existing,
        forall|k: int|
            0 <= k < new.len() ==> exists|j: int|
                0 <= j < merge_by_number(existing, new).len() && (#[trigger] merge_by_number(
                    existing,
                    new,
                )[j]).number == (#[trigger] new[k]).number,
        forall|k: int|
            existing.len() <= k < merge_by_number(existing, new).len() ==> new.contains(
                #[trigger] merge_by_number(existing, new)[k],
            ),
        forall|k: int, j: int|
            existing.len() <= k < merge_by_number(existing, new).len() && 0 <= j < k ==> (
            #[trigger] merge_by_number(existing, new)[j]).number != (
            #[trigger] merge_by_number(existing, new)[k]).number,
{
    law_merge_by_number(existing, new);
    lemma_merge_adds_fresh_numbers(existing, new);
    let m = merge_by_number(existing, new);
    assert forall|k: int| 0 <= k < new.len() implies exists|j: int|
        0 <= j < m.len() && (#[trigger] m[j]).number == (#[trigger] new[k]).number by {
        assert(has_number(m, new[k].key()));
        let j = choose|j: int| 0 <= j < m.len() && (#[trigger] m[j]).key() == new[k].key();
        assert(m[j].number == new[k].number);
    }
}

/// Saving newly merged or closed PRs keeps the cached ones in place;
/// afterwards every new PR's number is in the list; and a PR is added
/// exactly when no PR already listed has its number.
pub proof fn law_merged_prs_merge_by_exact_number(existing: Seq<PullRequest>, new: Seq<PullRequest>)
    ensures
        merge_by_number(existing, new).take(existing.len() as int) == existing,
        forall|k: int|
            0 <= k < new.len() ==> exists|j: int|
                0 <= j < merge_by_number(existing, new).len() && (#[trigger] merge_by_number(
                    existing,
                    new,
                )[j]).number == (#[trigger] new[k]).number,
        forall|k: int|
            existing.len() <= k < merge_by_number(existing, new).len() ==> new.contains(
                #[trigger] merge_by_number(existing, new)[k],
            ),
        forall|k: int, j: int|
            existing.len() <= k < merge_by_number(existing, new).len() && 0 <= j < k ==> (
            #[trigger] merge_by_number(existing, new)[j]).number != (
            #[trigger] merge_by_number(existing, new)[k]).number,
{
    law_merge_by_number(existing, new);
    lemma_merge_adds_fresh_numbers(existing, new);
    let m = merge_by_number(existing, new);
    assert forall|k: int| 0 <= k < new.len() implies exists|j: int|
        0 <= j < m.len() && (#[trigger] m[j]).number == (#[trigger] new[k]).number by {
        assert(has_number(m, new[k].key()));
        let j = choose|j: int| 0 <= j < m.len() && (#[trigger] m[j]).key() == new[k].key();
        assert(m[j].number == new[k].number);
    }
}

// ── Per-repository lists ────────────────────────────────────────────

/// The issues a cache holds in the file `name`.
pub open spec fn cached_issues(files: Seq<(String, CacheEntry)>, name: Seq<char>) -> Option<Vec<Issue>> {
    match lookup(files, name) {
        Some(CacheEntry::Issues(t)) => Some(t.data),
        _ => None,
    }
}

/// The pull requests a cache holds in the file `name`.
pub open spec fn cached_prs(files: Seq<(String, CacheEntry)>, name: Seq<char>) -> Option<Vec<PullRequest>> {
    match lookup(files, name) {
        Some(CacheEntry::PullRequests(t)) => Some(t.data),
        _ => None,
    }
}

/// The cards a cache holds in the file `name`.
pub open spec fn cached_cards(files: Seq<(String, CacheEntry)>, name: Seq<char>) -> Option<Vec<Card>> {
    match lookup(files, name) {
        Some(CacheEntry::Cards(t)) => Some(t.data),
        _ => None,
    }
}

/// The issues cached in the file `name`, or none.
pub open spec fn issues_or_empty(files: Seq<(String, CacheEntry)>, name: Seq<char>) -> Seq<Issue> {
    match cached_issues(files, name) {
        Some(v) => v@,
        None => Seq::empty(),
    }
}

/// The pull requests cached in the file `name`, or none.
pub open spec fn prs_or_empty(files: Seq<(String, CacheEntry)>, name: Seq<char>) -> Seq<PullRequest> {
    match cached_prs(files, name) {
        Some(v) => v@,
        None => Seq::empty(),
    }
}

/// Loads the issues of the file `name`.
fn load_issues_file<'a>(dir: &'a BoardCache, name: &str) -> (r: Option<&'a Vec<Issue>>)
    ensures
        match r {
            Some(v) => cached_issues(dir.entries@, name@) == Some(*v),
            None => cached_issues(dir.entries@, name@) is None,
        },
{
    match dir.get(name) {
        Some(CacheEntry::Issues(t)) => Some(&t.data),
        _ => None,
    }
}

/// Loads the pull requests of the file `name`.
fn load_prs_file<'a>(dir: &'a BoardCache, name: &str) -> (r: Option<&'a Vec<PullRequest>>)
    ensures
        match r {
            Some(v) => cached_prs(dir.entries@, name@) == Some(*v),
            None => cached_prs(dir.entries@, name@) is None,
        },
{
    match dir.get(name) {
        Some(CacheEntry::PullRequests(t)) => Some(&t.data),
        _ => None,
    }
}

/// Load cached open issues for a repo.
pub fn load_open_issues<'a>(dir: &'a BoardCache, owner: &str, repo: &str) -> (r: Option<&'a Vec<Issue>>)
    ensures
        match r {
            Some(v) => cached_issues(dir.entries@, repo_file("open_"@, owner@, repo@)) == Some(*v),
            None => cached_issues(dir.entries@, repo_file("open_"@, owner@, repo@)) is None,
        },
{
    let name = repo_file_name("open_", owner, repo);
    load_issues_file(dir, name.as_str())
}

/// Save open issues for a repo (replaced each time), synced at `now`.
pub fn save_open_issues(dir: &mut BoardCache, owner: &str, repo: &str, issues: Vec<Issue>, now: i64)
    ensures
        lookup(final(dir).entries@, repo_file("open_"@, owner@, repo@)) == Some(
            CacheEntry::Issues(Timestamped { synced_at: now, data: issues }),
        ),
        cached_issues(final(dir).entries@, repo_file("open_"@, owner@, repo@)) == Some(issues),
        others_unchanged(*old(dir), *final(dir), repo_file("open_"@, owner@, repo@)),
{
    let name = repo_file_name("open_", owner, repo);
    dir.put(name, CacheEntry::Issues(Timestamped { synced_at: now, data: issues }));
}

/// Load cached closed issues for a repo.
pub fn load_closed_issues<'a>(dir: &'a BoardCache, owner: &str, repo: &str) -> (r: Option<&'a Vec<Issue>>)
    ensures
        match r {
            Some(v) => cached_issues(dir.entries@, repo_file("closed_"@, owner@, repo@)) == Some(*v),
            None => cached_issues(dir.entries@, repo_file("closed_"@, owner@, repo@)) is None,
        },
{
    let name = repo_file_name("closed_", owner, repo);
    load_issues_file(dir, name.as_str())
}

/// Cumulatively save closed issues: the cached ones, followed by each new
/// issue whose number is not cached yet; synced at `now`.
pub fn save_closed_issues(dir: &mut BoardCache, owner: &str, repo: &str, new_issues: Vec<Issue>, now: i64)
    ensures
        synced_at(lookup(final(dir).entries@, repo_file("closed_"@, owner@, repo@))) == Some(now),
        cached_issues(final(dir).entries@, repo_file("closed_"@, owner@, repo@)) matches Some(v)
            && v@ == merge_by_number(
            issues_or_empty(old(dir).entries@, repo_file("closed_"@, owner@, repo@)),
            new_issues@,
        ),
        others_unchanged(*old(dir), *final(dir), repo_file("closed_"@, owner@, repo@)),
        forall|k: int|
            0 <= k < new_issues@.len() ==> exists|j: int|
                0 <= j < issues_or_empty(final(dir).entries@, repo_file("closed_"@, owner@, repo@)).len() && (
                #[trigger] issues_or_empty(final(dir).entries@, repo_file("closed_"@, owner@, repo@))[j]).number
                    == (#[trigger] new_issues@[k]).number,
{
    let name = repo_file_name("closed_", owner, repo);
    let ghost before = *dir;
    let mut existing: Vec<Issue> = match dir.take(name.as_str()) {
        Some(CacheEntry::Issues(t)) => t.data,
        _ => Vec::new(),
    };
    assert(existing@ == issues_or_empty(before.entries@, name@));
    let ghost added = new_issues@;
    merge_new(&mut existing, new_issues);
    assert forall|k: int| 0 <= k < added.len() implies exists|j: int|
        0 <= j < existing@.len() && (#[trigger] existing@[j]).number == (#[trigger] added[k]).number by {
        law_closed_issues_merge_by_exact_number(issues_or_empty(before.entries@, name@), added);
    }
    let ghost exv = existing;
    dir.put(name, CacheEntry::Issues(Timestamped { synced_at: now, data: existing }));
    assert(added == new_issues@);
    assert(issues_or_empty(dir.entries@, repo_file("closed_"@, owner@, repo@)) == exv@);
}

/// Load cached open pull requests for a repo.
pub fn load_prs<'a>(dir: &'a BoardCache, owner: &str, repo: &str) -> (r: Option<&'a Vec<PullRequest>>)
    ensures
        match r {
            Some(v) => cached_prs(dir.entries@, repo_file("prs_"@, owner@, repo@)) == Some(*v),
            None => cached_prs(dir.entries@, repo_file("prs_"@, owner@, repo@)) is None,
        },
{
    let name = repo_file_name("prs_", owner, repo);
    load_prs_file(dir, name.as_str())
}

/// Save open pull requests for a repo (replaced each time), synced at `now`.
pub fn save_prs(dir: &mut BoardCache, owner: &str, repo: &str, prs: Vec<PullRequest>, now: i64)
    ensures
        lookup(final(dir).entries@, repo_file("prs_"@, owner@, repo@)) == Some(
            CacheEntry::PullRequests(Timestamped { synced_at: now, data: prs }),
        ),
        cached_prs(final(dir).entries@, repo_file("prs_"@, owner@, repo@)) == Some(prs),
        others_unchanged(*old(dir), *final(dir), repo_file("prs_"@, owner@, repo@)),
{
    let name = repo_file_name("prs_", owner, repo);
    dir.put(name, CacheEntry::PullRequests(Timestamped { synced_at: now, data: prs }));
}

/// Cumulatively save merged/closed PRs: the cached ones, followed by each
/// new PR whose number is not cached yet; synced at `now`.
pub fn save_merged_prs(dir: &mut BoardCache, owner: &str, repo: &str, new_prs: Vec<PullRequest>, now: i64)
    ensures
        synced_at(lookup(final(dir).entries@, repo_file("merged_"@, owner@, repo@))) == Some(now),
        cached_prs(final(dir).entries@, repo_file("merged_"@, owner@, repo@)) matches Some(v)
            && v@ == merge_by_number(
            prs_or_empty(old(dir).entries@, repo_file("merged_"@, owner@, repo@)),
            new_prs@,
        ),
        others_unchanged(*old(dir), *final(dir), repo_file("merged_"@, owner@, repo@)),
        forall|k: int|
            0 <= k < new_prs@.len() ==> exists|j: int|
                0 <= j < prs_or_empty(final(dir).entries@, repo_file("merged_"@, owner@, repo@)).len() && (
                #[trigger] prs_or_empty(final(dir).entries@, repo_file("merged_"@, owner@, repo@))[j]).number
                    == (#[trigger] new_prs@[k]).number,
{
    let name = repo_file_name("merged_", owner, repo);
    let ghost before = *dir;
    let mut existing: Vec<PullRequest> = match dir.take(name.as_str()) {
        Some(CacheEntry::PullRequests(t)) => t.data,
        _ => Vec::new(),
    };
    assert(existing@ == prs_or_empty(before.entries@, name@));
    let ghost added = new_prs@;
    merge_new(&mut existing, new_prs);
    assert forall|k: int| 0 <= k < added.len() implies exists|j: int|
        0 <= j < existing@.len() && (#[trigger] existing@[j]).number == (#[trigger] added[k]).number by {
        law_merged_prs_merge_by_exact_number(prs_or_empty(before.entries@, name@), added);
    }
    let ghost exv = existing;
    dir.put(name, CacheEntry::PullRequests(Timestamped { synced_at: now, data: existing }));
    assert(added == new_prs@);
    assert(prs_or_empty(dir.entries@, repo_file("merged_"@, owner@, repo@)) == exv@);
}

/// Load cached merged/closed PRs for a repo.
pub fn load_merged_prs<'a>(dir: &'a BoardCache, owner: &str, repo: &str) -> (r: Option<&'a Vec<PullRequest>>)
    ensures
        match r {
            Some(v) => cached_prs(dir.entries@, repo_file("merged_"@, owner@, repo@)) == Some(*v),
            None => cached_prs(dir.entries@, repo_file("merged_"@, owner@, repo@)) is None,
        },
{
    let name = repo_file_name("merged_", owner, repo);
    load_prs_file(dir, name.as_str())
}

// ── Cards (full board data) ─────────────────────────────────────────

/// Load cached cards for a repo.
pub fn load_cards<'a>(dir: &'a BoardCache, owner: &str, repo: &str) -> (r: Option<&'a Vec<Card>>)
    ensures
        match r {
            Some(v) => cached_cards(dir.entries@, repo_file("cards_"@, owner@, repo@)) == Some(*v),
            None => cached_cards(dir.entries@, repo_file("cards_"@, owner@, repo@)) is None,
        },
{
    let name = repo_file_name("cards_", owner, repo);
    match dir.get(name.as_str()) {
        Some(CacheEntry::Cards(t)) => Some(&t.data),
        _ => None,
    }
}

/// Save cards for a repo, synced at `now`.
pub fn save_cards(dir: &mut BoardCache, owner: &str, repo: &str, cards: Vec<Card>, now: i64)
    ensures
        lookup(final(dir).entries@, repo_file("cards_"@, owner@, repo@)) == Some(
            CacheEntry::Cards(Timestamped { synced_at: now, data: cards }),
        ),
        cached_cards(final(dir).entries@, repo_file("cards_"@, owner@, repo@)) == Some(cards),
        others_unchanged(*old(dir), *final(dir), repo_file("cards_"@, owner@, repo@)),
{
    let name = repo_file_name("cards_", owner, repo);
    dir.put(name, CacheEntry::Cards(Timestamped { synced_at: now, data: cards }));
}

/// Count cached cards for a repo (0 if not cached).
pub fn cached_card_count(dir: &BoardCache, owner: &str, repo: &str) -> (n: usize)
    ensures
        n == match cached_cards(dir.entries@, repo_file("cards_"@, owner@, repo@)) {
            Some(v) => v@.len(),
            None => 0,
        },
{
    match load_cards(dir, owner, repo) {
        Some(c) => c.len(),
        None => 0,
    }
}

/// Check whether the cards cache for a repo is fresh (< 3h).
pub fn is_cards_fresh(dir: &BoardCache, owner: &str, repo: &str, now: i64) -> (b: bool)
    ensures
        b == fresh(lookup(dir.entries@, repo_file("cards_"@, owner@, repo@)), TTL_OPEN, now),
{
    let name = repo_file_name("cards_", owner, repo);
    is_ts_fresh(dir, name.as_str(), TTL_OPEN, now)
}

// ── Sync timestamps (per data type) ─────────────────────────────────

/// The last sync time of the open issues of a repo.
pub fn open_sync_time(dir: &BoardCache, owner: &str, repo: &str) -> (r: Option<i64>)
    ensures
        r == synced_at(lookup(dir.entries@, repo_file("open_"@, owner@, repo@))),
{
    let name = repo_file_name("open_", owner, repo);
    sync_time_of(dir, name.as_str())
}

/// The last sync time of the closed issues of a repo.
pub fn closed_sync_time(dir: &BoardCache, owner: &str, repo: &str) -> (r: Option<i64>)
    ensures
        r == synced_at(lookup(dir.entries@, repo_file("closed_"@, owner@, repo@))),
{
    let name = repo_file_name("closed_", owner, repo);
    sync_time_of(dir, name.as_str())
}

/// The last sync time of the open PRs of a repo.
pub fn prs_sync_time(dir: &BoardCache, owner: &str, repo: &str) -> (r: Option<i64>)
    ensures
        r == synced_at(lookup(dir.entries@, repo_file("prs_"@, owner@, repo@))),
{
    let name = repo_file_name("prs_", owner, repo);
    sync_time_of(dir, name.as_str())
}

/// The last sync time of the merged/closed PRs of a repo.
pub fn merged_sync_time(dir: &BoardCache, owner: &str, repo: &str) -> (r: Option<i64>)
    ensures
        r == synced_at(lookup(dir.entries@, repo_file("merged_"@, owner@, repo@))),
{
    let name = repo_file_name("merged_", owner, repo);
    sync_time_of(dir, name.as_str())
}

// ── Settings ────────────────────────────────────────────────────────

/// The settings a cache holds.
pub open spec fn cached_settings(files: Seq<(String, CacheEntry)>) -> Option<AppSettings> {
    match lookup(files, "settings.json"@) {
        Some(CacheEntry::Settings(s)) => Some(s),
        _ => None,
    }
}

/// Load persisted app settings: the saved ones, or the defaults.
pub fn load_settings(dir: &BoardCache) -> (s: AppSettings)
    ensures
        match cached_settings(dir.entries@) {
            Some(c) => same_settings(s, c),
            None => s.default_repos.entries@.len() == 0 && s.token is None && s.last_source is None
                && s.last_repos@.len() == 0,
        },
{
    match dir.get("settings.json") {
        Some(CacheEntry::Settings(s)) => s.copy(),
        _ => AppSettings::default(),
    }
}

/// Save app settings.
pub fn save_settings(dir: &mut BoardCache, settings: AppSettings)
    ensures
        lookup(final(dir).entries@, "settings.json"@) == Some(CacheEntry::Settings(settings)),
        cached_settings(final(dir).entries@) == Some(settings),
        others_unchanged(*old(dir), *final(dir), "settings.json"@),
{
    dir.put(copy_str("settings.json"), CacheEntry::Settings(settings));
}

// ── Cache management ────────────────────────────────────────────────

/// Remove all cached data (called on sign out).
pub fn clear_all_cache(dir: &mut BoardCache)
    ensures
        forall|name: Seq<char>| lookup(final(dir).entries@, name) is None,
{
    dir.clear();
}

/// The files of a repository that feed incremental sync: its open issues,
/// its derived cards and its open PRs.
pub fn repo_open_files(owner: &str, repo: &str) -> (names: Vec<String>)
    ensures
        views(names@) == seq![
            repo_file("open_"@, owner@, repo@),
            repo_file("cards_"@, owner@, repo@),
            repo_file("prs_"@, owner@, repo@),
        ],
{
    let mut names: Vec<String> = Vec::new();
    names.push(repo_file_name("open_", owner, repo));
    names.push(repo_file_name("cards_", owner, repo));
    names.push(repo_file_name("prs_", owner, repo));
    assert(views(names@) =~= seq![
        repo_file("open_"@, owner@, repo@),
        repo_file("cards_"@, owner@, repo@),
        repo_file("prs_"@, owner@, repo@),
    ]);
    names
}

/// Remove the per-repo caches that feed incremental sync (open issues, open
/// PRs and derived cards), so that the next fetch is a full one.
pub fn clear_repo_open_cache(dir: &mut BoardCache, owner: &str, repo: &str)
    ensures
        lookup(final(dir).entries@, repo_file("open_"@, owner@, repo@)) is None,
        lookup(final(dir).entries@, repo_file("cards_"@, owner@, repo@)) is None,
        lookup(final(dir).entries@, repo_file("prs_"@, owner@, repo@)) is None,
        forall|other: Seq<char>|
            #![trigger lookup(final(dir).entries@, other)]
            other != repo_file("open_"@, owner@, repo@) && other != repo_file("cards_"@, owner@, repo@)
                && other != repo_file("prs_"@, owner@, repo@) ==> lookup(final(dir).entries@, other)
                == lookup(old(dir).entries@, other),
{
    let names = repo_open_files(owner, repo);
    assert(views(names@).len() == 3);
    assert(names@[0]@ == views(names@)[0] && names@[1]@ == views(names@)[1] && names@[2]@ == views(names@)[2]);
    let _ = dir.take(names[0].as_str());
    let _ = dir.take(names[1].as_str());
    let _ = dir.take(names[2].as_str());
}

} // verus!
