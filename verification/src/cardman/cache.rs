//! The local cache of the first-generation board: organization logins,
//! repository names per source, closed issues and cards per repository, and
//! settings, each in a file of its own.
use vstd::prelude::*;

use crate::str_map::{lookup, StrMap};
use crate::cardman::models::{Card, Issue};
use crate::kardhub::cache::{key_of, repo_file, repo_file_name};
use crate::text::{append_str, copy_str, copy_strings};

verus! {

/// User-configurable defaults persisted across sessions.
#[derive(Debug, Clone)]
pub struct AppSettings {
    /// Default repository name per source key (e.g. `"personal"` → `"my-repo"`).
    pub default_repos: StrMap<String>,
}

impl Default for AppSettings {
    /// No default repositories.
    fn default() -> (s: Self)
        ensures
            s.default_repos.entries@.len() == 0,
    {
        AppSettings { default_repos: StrMap::new() }
    }
}

impl AppSettings {
    /// A copy of these settings.
    pub fn copy(&self) -> (s: AppSettings)
        ensures
            s.default_repos.entries@ == self.default_repos.entries@,
    {
        AppSettings { default_repos: self.default_repos.copy() }
    }
}

/// What one cache file holds.
#[derive(Debug, Clone)]
pub enum CacheEntry {
    /// A list of names: organization logins or repository names.
    Names(Vec<String>),
    /// Closed issues of a repository.
    Issues(Vec<Issue>),
    /// A repository's board cards.
    Cards(Vec<Card>),
    /// The app settings.
    Settings(AppSettings),
}

/// The cache directory of the first-generation board.
pub type CardCache = StrMap<CacheEntry>;

/// Every file other than `name` is as it was.
pub open spec fn others_unchanged(before: CardCache, after: CardCache, name: Seq<char>) -> bool {
    forall|other: Seq<char>|
        #![trigger lookup(after.entries@, other)]
        other != name ==> lookup(after.entries@, other) == lookup(before.entries@, other)
}

/// The names a cache holds in the file `name`.
pub open spec fn cached_names(files: Seq<(String, CacheEntry)>, name: Seq<char>) -> Option<Seq<String>> {
    match lookup(files, name) {
        Some(CacheEntry::Names(v)) => Some(v@),
        _ => None,
    }
}

/// The issues a cache holds in the file `name`.
pub open spec fn cached_issues(files: Seq<(String, CacheEntry)>, name: Seq<char>) -> Option<Vec<Issue>> {
    match lookup(files, name) {
        Some(CacheEntry::Issues(v)) => Some(v),
        _ => None,
    }
}

/// The cards a cache holds in the file `name`.
pub open spec fn cached_cards(files: Seq<(String, CacheEntry)>, name: Seq<char>) -> Option<Vec<Card>> {
    match lookup(files, name) {
        Some(CacheEntry::Cards(v)) => Some(v),
        _ => None,
    }
}

/// The settings a cache holds.
pub open spec fn cached_settings(files: Seq<(String, CacheEntry)>) -> Option<AppSettings> {
    match lookup(files, "settings.json"@) {
        Some(CacheEntry::Settings(s)) => Some(s),
        _ => None,
    }
}

/// Build the key string for a source (used in filenames): lower-cased,
/// with every character that is not alphanumeric replaced by `_`.
pub fn source_key(source_name: &str) -> (key: String)
    ensures
        key@ == key_of(source_name@),
{
    crate::kardhub::cache::source_key(source_name)
}

/// The names listed in the file `name`.
fn load_names(dir: &CardCache, name: &str) -> (r: Option<Vec<String>>)
    ensures
        match r {
            Some(v) => cached_names(dir.entries@, name@) == Some(v@),
            None => cached_names(dir.entries@, name@) is None,
        },
{
    match dir.get(name) {
        Some(CacheEntry::Names(v)) => Some(copy_strings(v)),
        _ => None,
    }
}

// ── Sources (organizations) ─────────────────────────────────────────

/// Load cached organization logins.
pub fn load_sources(dir: &CardCache) -> (r: Option<Vec<String>>)
    ensures
        match r {
            Some(v) => cached_names(dir.entries@, "sources.json"@) == Some(v@),
            None => cached_names(dir.entries@, "sources.json"@) is None,
        },
{
    load_names(dir, "sources.json")
}

/// Save organization logins to cache.
pub fn save_sources(dir: &mut CardCache, orgs: &Vec<String>)
    ensures
        cached_names(final(dir).entries@, "sources.json"@) == Some(orgs@),
        others_unchanged(*old(dir), *final(dir), "sources.json"@),
{
    dir.put(copy_str("sources.json"), CacheEntry::Names(copy_strings(orgs)));
}

// ── Repositories ────────────────────────────────────────────────────

/// The name of the repository list of a source key: `repos_{key}.json`.
pub open spec fn repos_file(src_key: Seq<char>) -> Seq<char> {
    "repos_"@ + src_key + ".json"@
}

/// The name of the repository list of a source key.
fn repos_file_name(src_key: &str) -> (name: String)
    ensures
        name@ == repos_file(src_key@),
{
    let mut name = copy_str("repos_");
    append_str(&mut name, src_key);
    append_str(&mut name, ".json");
    name
}

/// Load cached repository names for a given source key.
pub fn load_repos(dir: &CardCache, src_key: &str) -> (r: Option<Vec<String>>)
    ensures
        match r {
            Some(v) => cached_names(dir.entries@, repos_file(src_key@)) == Some(v@),
            None => cached_names(dir.entries@, repos_file(src_key@)) is None,
        },
{
    let name = repos_file_name(src_key);
    load_names(dir, name.as_str())
}

/// Save repository names for a given source key.
pub fn save_repos(dir: &mut CardCache, src_key: &str, repos: &Vec<String>)
    ensures
        cached_names(final(dir).entries@, repos_file(src_key@)) == Some(repos@),
        others_unchanged(*old(dir), *final(dir), repos_file(src_key@)),
{
    let name = repos_file_name(src_key);
    dir.put(name, CacheEntry::Names(copy_strings(repos)));
}

// ── Closed issues ───────────────────────────────────────────────────

/// Check whether closed issues are cached for a repo.
pub fn has_closed_issues(dir: &CardCache, owner: &str, repo: &str) -> (b: bool)
    ensures
        b == (lookup(dir.entries@, repo_file("closed_"@, owner@, repo@)) is Some),
{
    let name = repo_file_name("closed_", owner, repo);
    dir.contains(name.as_str())
}

/// Load cached closed issues for a repo.
pub fn load_closed_issues<'a>(dir: &'a CardCache, owner: &str, repo: &str) -> (r: Option<&'a Vec<Issue>>)
    ensures
        match r {
            Some(v) => cached_issues(dir.entries@, repo_file("closed_"@, owner@, repo@)) == Some(*v),
            None => cached_issues(dir.entries@, repo_file("closed_"@, owner@, repo@)) is None,
        },
{
    let name = repo_file_name("closed_", owner, repo);
    match dir.get(name.as_str()) {
        Some(CacheEntry::Issues(v)) => Some(v),
        _ => None,
    }
}

/// Save closed issues for a repo.
pub fn save_closed_issues(dir: &mut CardCache, owner: &str, repo: &str, issues: Vec<Issue>)
    ensures
        cached_issues(final(dir).entries@, repo_file("closed_"@, owner@, repo@)) == Some(issues),
        others_unchanged(*old(dir), *final(dir), repo_file("closed_"@, owner@, repo@)),
{
    let name = repo_file_name("closed_", owner, repo);
    dir.put(name, CacheEntry::Issues(issues));
}

// ── Cards (full board data) ─────────────────────────────────────────

/// Load cached cards for a repo.
pub fn load_cards<'a>(dir: &'a CardCache, owner: &str, repo: &str) -> (r: Option<&'a Vec<Card>>)
    ensures
        match r {
            Some(v) => cached_cards(dir.entries@, repo_file("cards_"@, owner@, repo@)) == Some(*v),
            None => cached_cards(dir.entries@, repo_file("cards_"@, owner@, repo@)) is None,
        },
{
    let name = repo_file_name("cards_", owner, repo);
    match dir.get(name.as_str()) {
        Some(CacheEntry::Cards(v)) => Some(v),
        _ => None,
    }
}

/// Save cards for a repo.
pub fn save_cards(dir: &mut CardCache, owner: &str, repo: &str, cards: Vec<Card>)
    ensures
        cached_cards(final(dir).entries@, repo_file("cards_"@, owner@, repo@)) == Some(cards),
        others_unchanged(*old(dir), *final(dir), repo_file("cards_"@, owner@, repo@)),
{
    let name = repo_file_name("cards_", owner, repo);
    dir.put(name, CacheEntry::Cards(cards));
}

// ── Settings ────────────────────────────────────────────────────────

/// Load persisted app settings: the saved ones, or the defaults.
pub fn load_settings(dir: &CardCache) -> (s: AppSettings)
    ensures
        match cached_settings(dir.entries@) {
            Some(c) => s.default_repos.entries@ == c.default_repos.entries@,
            None => s.default_repos.entries@.len() == 0,
        },
{
    match dir.get("settings.json") {
        Some(CacheEntry::Settings(s)) => s.copy(),
        _ => AppSettings::default(),
    }
}

/// Save app settings.
pub fn save_settings(dir: &mut CardCache, settings: AppSettings)
    ensures
        cached_settings(final(dir).entries@) == Some(settings),
        others_unchanged(*old(dir), *final(dir), "settings.json"@),
{
    dir.put(copy_str("settings.json"), CacheEntry::Settings(settings));
}

} // verus!
