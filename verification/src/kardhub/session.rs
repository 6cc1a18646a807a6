//! The decisions of a board session: which source and repositories to show
//! on start, how the source map is built from the fetched repositories, and
//! how freshly fetched issues and pull requests are merged with the cache.
use vstd::prelude::*;

use crate::str_map::lookup;
use crate::kardhub::cache::{
    cached_card_count, cached_cards, has_org, key_of, lemma_org_position, lemma_org_position_unique,
    org_keys, org_position, org_repos, repo_file, source_key, source_repos, wf_org_map, BoardCache,
    OrgSources, SourceMap, SourceRepos,
};
use crate::kardhub::cache::{any_has_number, has_number, unique_numbers, Numbered};
use crate::kardhub::cache::{
    cached_profile, fresh, is_profile_fresh, load_profile, TTL_REPOS,
};
use crate::kardhub::models::{
    AuthenticatedUser, Card, CardSource, Issue, IssueState, Label, Priority, PullRequest, Repository, User,
};
use crate::stable_sort::{key_sorted, sort_by_key, stable_sorted, SortKey};
use crate::order::{lemma_lex_irreflexive, lemma_lex_total, lemma_lex_transitive, lex_lt, str_lt, strictly_sorted};
use crate::text::{concat_str, copy_str, copy_strings, decimal, str_eq, u64_to_decimal, views};

verus! {

/// Data source kind for the sidebar.
#[derive(Debug, Clone, PartialEq)]
pub enum SourceKind {
    /// Show personal repositories.
    Personal,
    /// Show repositories from an organization.
    Organization(String),
}

/// Filter for personal repositories.
#[derive(Debug, Clone, Copy, PartialEq, Eq)]
pub enum PersonalFilter {
    /// Show only owned repos.
    Owner,
    /// Show only collaborator repos.
    Collaborator,
}

impl Default for PersonalFilter {
    /// Owned repositories.
    fn default() -> (f: Self)
        ensures
            f == PersonalFilter::Owner,
    {
        PersonalFilter::Owner
    }
}

/// A repository entry with its name and cached card count for sorting.
#[derive(Debug, Clone, PartialEq)]
pub struct RepoEntry {
    /// Repository name.
    pub name: String,
    /// Number of cached cards (used for sorting, 0 if unknown).
    pub card_count: usize,
}

/// A copy of a source kind.
pub fn copy_source(source: &SourceKind) -> (s: SourceKind)
    ensures
        s == *source,
{
    match source {
        SourceKind::Personal => SourceKind::Personal,
        SourceKind::Organization(org) => SourceKind::Organization(org.clone()),
    }
}

/// The owner of the repositories a source shows: the user for personal
/// repositories, else the organization.
pub open spec fn source_owner(source: SourceKind, user_login: Seq<char>) -> Seq<char> {
    match source {
        SourceKind::Personal => user_login,
        SourceKind::Organization(org) => org@,
    }
}

/// Derive the owner string from the source + user.
pub fn owner_for_source(source: &SourceKind, user_login: &str) -> (owner: String)
    ensures
        owner@ == source_owner(*source, user_login@),
{
    match source {
        SourceKind::Personal => copy_str(user_login),
        SourceKind::Organization(org) => org.clone(),
    }
}

/// The cache key of a source: `personal`, or the organization's key.
pub open spec fn source_kind_key(source: SourceKind) -> Seq<char> {
    match source {
        SourceKind::Personal => "personal"@,
        SourceKind::Organization(org) => key_of(org@),
    }
}

/// Source key string for the sidebar source (used in cache filenames).
pub fn source_key_for(source: &SourceKind) -> (key: String)
    ensures
        key@ == source_kind_key(*source),
{
    match source {
        SourceKind::Personal => copy_str("personal"),
        SourceKind::Organization(org) => source_key(org.as_str()),
    }
}

/// The number of cards cached for a repository, 0 where none are.
pub open spec fn card_count_of(files: Seq<(String, crate::kardhub::cache::CacheEntry)>, owner: Seq<char>, repo: Seq<char>) -> nat {
    match cached_cards(files, repo_file("cards_"@, owner, repo)) {
        Some(v) => v@.len(),
        None => 0,
    }
}

/// Build repo entries with cached card counts.
pub fn build_repo_entries(dir: &BoardCache, repos: &Vec<String>, owner: &str) -> (entries: Vec<RepoEntry>)
    ensures
        entries@.len() == repos@.len(),
        forall|i: int|
            0 <= i < repos@.len() ==> (#[trigger] entries@[i]).name == repos@[i] && entries@[i].card_count
                == card_count_of(dir.entries@, owner@, repos@[i]@),
{
    let mut entries: Vec<RepoEntry> = Vec::new();
    let mut i: usize = 0;
    while i < repos.len()
        invariant
            i <= repos.len(),
            entries@.len() == i,
            forall|k: int|
                0 <= k < i ==> (#[trigger] entries@[k]).name == repos@[k] && entries@[k].card_count
                    == card_count_of(dir.entries@, owner@, repos@[k]@),
        decreases repos.len() - i,
    {
        let count = cached_card_count(dir, owner, repos[i].as_str());
        entries.push(RepoEntry { name: repos[i].clone(), card_count: count });
        i = i + 1;
    }
    entries
}

// ── Restoring the last session ──────────────────────────────────────

/// The source restored from the last one saved: that organization where it
/// names one of `orgs` (and is not `personal`), else personal repositories.
pub open spec fn restored_source(last_source: Option<String>, orgs: Seq<String>) -> SourceKind {
    match last_source {
        Some(s) => if s@ != "personal"@ && views(orgs).contains(s@) {
            SourceKind::Organization(s)
        } else {
            SourceKind::Personal
        },
        None => SourceKind::Personal,
    }
}

/// Whether `list` holds the string `s`.
fn contains_string(list: &Vec<String>, s: &String) -> (b: bool)
    ensures
        b == views(list@).contains(s@),
{
    let mut i: usize = 0;
    while i < list.len()
        invariant
            i <= list.len(),
            forall|k: int| 0 <= k < i ==> (#[trigger] list@[k])@ != s@,
        decreases list.len() - i,
    {
        if str_eq(list[i].as_str(), s.as_str()) {
            assert(views(list@)[i as int] == s@);
            return true;
        }
        i = i + 1;
    }
    false
}

/// The source to restore from the saved `last_source`, given the
/// organizations of the source map.
pub fn restore_source(last_source: &Option<String>, orgs: &Vec<String>) -> (s: SourceKind)
    ensures
        s == restored_source(*last_source, orgs@),
{
    match last_source {
        Some(s) => {
            if !str_eq(s.as_str(), "personal") && contains_string(orgs, s) {
                SourceKind::Organization(s.clone())
            } else {
                SourceKind::Personal
            }
        },
        None => SourceKind::Personal,
    }
}

/// The repositories a restored source shows: owned personal repositories,
/// or those of the organization.
pub open spec fn kind_repos(m: SourceMap, source: SourceKind) -> Seq<String> {
    match source {
        SourceKind::Personal => m.personal.owner@,
        SourceKind::Organization(org) => source_repos(m, org@),
    }
}

/// Derive the repositories of a source from the source map (personal
/// defaults to owned only).
pub fn repos_for_kind(map: &SourceMap, source: &SourceKind) -> (repos: Vec<String>)
    ensures
        repos@ == kind_repos(*map, *source),
{
    match source {
        SourceKind::Personal => copy_strings(&map.personal.owner),
        SourceKind::Organization(org) => map.repos_for_source(org.as_str()),
    }
}

/// The position of the first repository named `name`.
pub open spec fn first_position(repos: Seq<String>, name: Seq<char>) -> Option<int>
    decreases repos.len(),
{
    if repos.len() == 0 {
        None
    } else {
        match first_position(repos.drop_last(), name) {
            Some(i) => Some(i),
            None => if repos.last()@ == name {
                Some(repos.len() - 1)
            } else {
                None
            },
        }
    }
}

/// The positions in `repos` of the saved names that are still there, in
/// the order of `names`.
pub open spec fn positions_of(names: Seq<String>, repos: Seq<String>) -> Seq<int>
    decreases names.len(),
{
    if names.len() == 0 {
        Seq::empty()
    } else {
        let r = positions_of(names.drop_last(), repos);
        match first_position(repos, names.last()@) {
            Some(i) => r.push(i),
            None => r,
        }
    }
}

proof fn lemma_first_position_prefix(repos: Seq<String>, name: Seq<char>, n: int)
    requires
        0 <= n <= repos.len(),
        first_position(repos.take(n), name) is Some,
    ensures
        first_position(repos, name) == first_position(repos.take(n), name),
    decreases repos.len() - n,
{
    if n < repos.len() {
        assert(repos.take(n + 1).drop_last() =~= repos.take(n));
        lemma_first_position_prefix(repos, name, n + 1);
    } else {
        assert(repos.take(n) =~= repos);
    }
}

/// The position of the first repository named `name`.
fn position_of(repos: &Vec<String>, name: &str) -> (r: Option<usize>)
    ensures
        match r {
            Some(i) => i < repos@.len() && first_position(repos@, name@) == Some(i as int),
            None => first_position(repos@, name@) is None,
        },
{
    let mut i: usize = 0;
    while i < repos.len()
        invariant
            i <= repos.len(),
            first_position(repos@.take(i as int), name@) is None,
        decreases repos.len() - i,
    {
        assert(repos@.take(i + 1).drop_last() =~= repos@.take(i as int));
        if str_eq(repos[i].as_str(), name) {
            proof {
                assert(repos@.take(i + 1).last() == repos@[i as int]);
                lemma_first_position_prefix(repos@, name@, i + 1);
            }
            return Some(i);
        }
        i = i + 1;
    }
    assert(repos@.take(repos.len() as int) =~= repos@);
    None
}

/// Restore the last selected repositories: the positions in `repos` of the
/// saved names that are still listed.
pub fn selected_indices(last_repos: &Vec<String>, repos: &Vec<String>) -> (idx: Vec<usize>)
    ensures
        idx@.len() == positions_of(last_repos@, repos@).len(),
        forall|k: int| 0 <= k < idx@.len() ==> #[trigger] idx@[k] == positions_of(last_repos@, repos@)[k],
        forall|k: int| 0 <= k < idx@.len() ==> #[trigger] idx@[k] < repos@.len(),
{
    let mut idx: Vec<usize> = Vec::new();
    let mut i: usize = 0;
    while i < last_repos.len()
        invariant
            i <= last_repos.len(),
            idx@.len() == positions_of(last_repos@.take(i as int), repos@).len(),
            forall|k: int|
                0 <= k < idx@.len() ==> #[trigger] idx@[k] == positions_of(last_repos@.take(i as int), repos@)[k],
            forall|k: int| 0 <= k < idx@.len() ==> #[trigger] idx@[k] < repos@.len(),
        decreases last_repos.len() - i,
    {
        assert(last_repos@.take(i + 1).drop_last() =~= last_repos@.take(i as int));
        assert(last_repos@.take(i + 1).last() == last_repos@[i as int]);
        match position_of(repos, last_repos[i].as_str()) {
            Some(p) => idx.push(p),
            None => {},
        }
        i = i + 1;
    }
    assert(last_repos@.take(last_repos.len() as int) =~= last_repos@);
    idx
}


// ── Building the source map ─────────────────────────────────────────

/// The names of `repos`, in order.
pub open spec fn repo_names(repos: Seq<Repository>) -> Seq<String> {
    repos.map_values(|r: Repository| r.name)
}

/// An unarchived repository owned by an organization.
pub open spec fn is_org_repo(r: Repository) -> bool {
    !r.archived && r.owner_type@ == "Organization"@
}

/// The repositories of organizations the user is a member of.
pub open spec fn member_org_repo(member_orgs: Seq<Seq<char>>) -> spec_fn(Repository) -> bool {
    |r: Repository| is_org_repo(r) && member_orgs.contains(r.owner@)
}

/// The repositories of organizations the user is not a member of.
pub open spec fn outside_org_repo(member_orgs: Seq<Seq<char>>) -> spec_fn(Repository) -> bool {
    |r: Repository| is_org_repo(r) && !member_orgs.contains(r.owner@)
}

/// Unarchived repositories of the user's own account.
pub open spec fn owned_repo(user: Seq<char>) -> spec_fn(Repository) -> bool {
    |r: Repository| !r.archived && r.owner_type@ != "Organization"@ && r.owner@ == user
}

/// Unarchived repositories of other users' accounts.
pub open spec fn shared_repo(user: Seq<char>) -> spec_fn(Repository) -> bool {
    |r: Repository| !r.archived && r.owner_type@ != "Organization"@ && r.owner@ != user
}

/// The repositories that meet `pred` and belong to `login`.
pub open spec fn owned_by(pred: spec_fn(Repository) -> bool, login: Seq<char>) -> spec_fn(Repository) -> bool {
    |r: Repository| pred(r) && r.owner@ == login
}

/// The names of the repositories of `login` that meet `pred`, if it has any.
pub open spec fn grouped(repos: Seq<Repository>, pred: spec_fn(Repository) -> bool, login: Seq<char>) -> Option<
    Seq<String>,
> {
    let f = repos.filter(owned_by(pred, login));
    if f.len() > 0 {
        Some(repo_names(f))
    } else {
        None
    }
}

/// The names listed for `login` once `name` is appended to them.
pub open spec fn appended(orgs: Seq<(String, Vec<String>)>, login: Seq<char>, name: String) -> Seq<String> {
    match org_repos(orgs, login) {
        Some(v) => v.push(name),
        None => seq![name],
    }
}

/// Appends `name` to the repositories of the org `owner`, adding the org at
/// its place in login order if it is new.
fn add_to_org(map: &mut Vec<(String, Vec<String>)>, owner: String, name: String)
    requires
        wf_org_map(old(map)@),
    ensures
        wf_org_map(final(map)@),
        forall|l: Seq<char>|
            #![trigger org_repos(final(map)@, l)]
            org_repos(final(map)@, l) == if l == owner@ {
                Some(appended(old(map)@, l, name))
            } else {
                org_repos(old(map)@, l)
            },
{
    let ghost before = map@;
    let mut p: usize = 0;
    while p < map.len() && str_lt(map[p].0.as_str(), owner.as_str())
        invariant
            map@ == before,
            p <= map.len(),
            forall|k: int| 0 <= k < p ==> lex_lt((#[trigger] before[k]).0@, owner@),
        decreases map.len() - p,
    {
        p = p + 1;
    }
    assert forall|k: int| p <= k < before.len() implies !lex_lt((#[trigger] before[k]).0@, owner@) by {
        if k > p {
            assert(org_keys(before)[p as int] == before[p as int].0@);
            assert(org_keys(before)[k] == before[k].0@);
            if lex_lt(before[k].0@, owner@) {
                lemma_lex_transitive(before[p as int].0@, before[k].0@, owner@);
            }
        }
    }
    if p < map.len() && str_eq(map[p].0.as_str(), owner.as_str()) {
        let mut entry = map.remove(p);
        let ghost old_names = entry.1@;
        entry.1.push(name);
        let ghost new_entry = entry;
        map.insert(p, entry);
        assert(map@ =~= before.update(p as int, new_entry));
        assert(org_keys(map@) =~= org_keys(before));
        proof {
            lemma_org_position_unique(before, owner@, p as int);
            lemma_org_position_unique(map@, owner@, p as int);
        }
        assert forall|l: Seq<char>|
            #![trigger org_repos(map@, l)]
            org_repos(map@, l) == if l == owner@ {
                Some(appended(before, l, name))
            } else {
                org_repos(before, l)
            } by {
            if l != owner@ {
                lemma_org_position(before, l);
                lemma_org_position(map@, l);
                match org_position(before, l) {
                    Some(k) => {
                        assert(map@[k] == before[k]);
                        lemma_org_position_unique(map@, l, k);
                    },
                    None => {
                        if org_position(map@, l) is Some {
                            let k = org_position(map@, l).unwrap();
                            assert(map@[k].0@ == before[k].0@);
                        }
                    },
                }
            }
        }
    } else {
        proof {
            lemma_org_position(before, owner@);
            lemma_lex_irreflexive(owner@);
            if p < before.len() {
                lemma_lex_total(before[p as int].0@, owner@);
            }
        }
        assert forall|k: int| 0 <= k < before.len() implies (#[trigger] before[k]).0@ != owner@ by {
            lemma_lex_irreflexive(owner@);
            if k >= p as int {
                if k > p as int {
                    assert(org_keys(before)[p as int] == before[p as int].0@);
                    assert(org_keys(before)[k] == before[k].0@);
                    lemma_lex_total(before[p as int].0@, owner@);
                    if before[k].0@ == owner@ {
                        lemma_lex_transitive(owner@, before[p as int].0@, owner@);
                    }
                }
            }
        }
        let mut names: Vec<String> = Vec::new();
        names.push(name);
        map.insert(p, (owner, names));
        let ghost after = map@;
        assert(after == before.insert(p as int, after[p as int]));
        proof {
            before.insert_ensures(p as int, after[p as int]);
        }
        assert(wf_org_map(after)) by {
            assert forall|i: int, j: int| 0 <= i < j < org_keys(after).len() implies lex_lt(
                #[trigger] org_keys(after)[i],
                #[trigger] org_keys(after)[j],
            ) by {
                let n = p as int;
                if j < n {
                    assert(org_keys(before)[i] == org_keys(after)[i]);
                    assert(org_keys(before)[j] == org_keys(after)[j]);
                } else if j == n {
                    assert(org_keys(after)[i] == before[i].0@);
                } else if i == n {
                    assert(org_keys(after)[j] == before[j - 1].0@);
                    lemma_lex_total(before[n].0@, owner@);
                    if j - 1 > n {
                        assert(org_keys(before)[n] == before[n].0@);
                        assert(org_keys(before)[j - 1] == before[j - 1].0@);
                        lemma_lex_transitive(owner@, before[n].0@, before[j - 1].0@);
                    }
                } else if i < n {
                    assert(org_keys(after)[i] == before[i].0@);
                    assert(org_keys(after)[j] == before[j - 1].0@);
                    lemma_lex_total(before[n].0@, owner@);
                    if j - 1 > n {
                        assert(org_keys(before)[n] == before[n].0@);
                        assert(org_keys(before)[j - 1] == before[j - 1].0@);
                        lemma_lex_transitive(owner@, before[n].0@, before[j - 1].0@);
                    }
                    lemma_lex_transitive(before[i].0@, owner@, before[j - 1].0@);
                } else {
                    assert(org_keys(after)[i] == before[i - 1].0@);
                    assert(org_keys(after)[j] == before[j - 1].0@);
                    assert(org_keys(before)[i - 1] == before[i - 1].0@);
                    assert(org_keys(before)[j - 1] == before[j - 1].0@);
                }
            }
        }
        proof {
            lemma_org_position_unique(after, owner@, p as int);
        }
        assert forall|l: Seq<char>|
            #![trigger org_repos(map@, l)]
            org_repos(map@, l) == if l == owner@ {
                Some(appended(before, l, name))
            } else {
                org_repos(before, l)
            } by {
            if l == owner@ {
                assert(after[p as int].1@ =~= seq![name]);
            } else {
                lemma_org_position(before, l);
                lemma_org_position(after, l);
                match org_position(before, l) {
                    Some(k) => {
                        if k < p as int {
                            assert(after[k] == before[k]);
                            lemma_org_position_unique(after, l, k);
                        } else {
                            assert(after[k + 1] == before[k]);
                            lemma_org_position_unique(after, l, k + 1);
                        }
                    },
                    None => {
                        if org_position(after, l) is Some {
                            let k = org_position(after, l).unwrap();
                            if k < p as int {
                                assert(after[k] == before[k]);
                            } else if k > p as int {
                                assert(after[k] == before[k - 1]);
                            }
                        }
                    },
                }
            }
        }
    }
}

/// Build the unified source map from the user's repositories and the
/// logins of the organizations the user is a member of: archived
/// repositories are left out; organization repositories go under member or
/// collaborator organizations by membership; the user's own repositories
/// are owned, other users' are collaborator repositories.
pub fn build_source_map(all_repos: Vec<Repository>, member_orgs: &Vec<String>, user_login: &str) -> (m: SourceMap)
    ensures
        m.organizations.wf(),
        m.personal.owner@ == repo_names(all_repos@.filter(owned_repo(user_login@))),
        m.personal.collaborator@ == repo_names(all_repos@.filter(shared_repo(user_login@))),
        forall|l: Seq<char>|
            #![trigger org_repos(m.organizations.member@, l)]
            org_repos(m.organizations.member@, l) == grouped(all_repos@, member_org_repo(views(member_orgs@)), l),
        forall|l: Seq<char>|
            #![trigger org_repos(m.organizations.collaborator@, l)]
            org_repos(m.organizations.collaborator@, l) == grouped(
                all_repos@,
                outside_org_repo(views(member_orgs@)),
                l,
            ),
{
    let ghost all = all_repos@;
    let ghost mo = views(member_orgs@);
    let ghost user = user_login@;
    let mut owner: Vec<String> = Vec::new();
    let mut collaborator: Vec<String> = Vec::new();
    let mut member_map: Vec<(String, Vec<String>)> = Vec::new();
    let mut outside_map: Vec<(String, Vec<String>)> = Vec::new();
    proof {
        assert(all.take(0) =~= Seq::<Repository>::empty());
        reveal(Seq::filter);
        assert(org_keys(member_map@) =~= Seq::<Seq<char>>::empty());
        assert(org_keys(outside_map@) =~= Seq::<Seq<char>>::empty());
        assert(repo_names(Seq::<Repository>::empty()) =~= Seq::<String>::empty());
    }
    for repo in it: all_repos.into_iter()
        invariant
            it.seq() == all,
            mo == views(member_orgs@),
            user == user_login@,
            owner@ == repo_names(all.take(it.index() as int).filter(owned_repo(user))),
            collaborator@ == repo_names(all.take(it.index() as int).filter(shared_repo(user))),
            wf_org_map(member_map@),
            wf_org_map(outside_map@),
            forall|l: Seq<char>|
                #![trigger org_repos(member_map@, l)]
                org_repos(member_map@, l) == grouped(all.take(it.index() as int), member_org_repo(mo), l),
            forall|l: Seq<char>|
                #![trigger org_repos(outside_map@, l)]
                org_repos(outside_map@, l) == grouped(all.take(it.index() as int), outside_org_repo(mo), l),
    {
        let ghost k = it.index();
        let ghost prev = all.take(k as int);
        let ghost r = repo;
        assert(all[k as int] == repo);
        assert(all.take(k + 1) =~= prev.push(repo));
        let ghost om = member_map@;
        let ghost oo = outside_map@;
        proof {
            prev.lemma_filter_push(r, owned_repo(user));
            prev.lemma_filter_push(r, shared_repo(user));
            assert(repo_names(prev.filter(owned_repo(user)).push(r)) =~= repo_names(
                prev.filter(owned_repo(user)),
            ).push(r.name));
            assert(repo_names(prev.filter(shared_repo(user)).push(r)) =~= repo_names(
                prev.filter(shared_repo(user)),
            ).push(r.name));
        }
        if !repo.archived {
            if str_eq(repo.owner_type.as_str(), "Organization") {
                if contains_string(member_orgs, &repo.owner) {
                    add_to_org(&mut member_map, repo.owner, repo.name);
                } else {
                    add_to_org(&mut outside_map, repo.owner, repo.name);
                }
            } else if str_eq(repo.owner.as_str(), user_login) {
                owner.push(repo.name);
            } else {
                collaborator.push(repo.name);
            }
        }
        assert forall|l: Seq<char>|
            #![trigger org_repos(member_map@, l)]
            org_repos(member_map@, l) == grouped(prev.push(r), member_org_repo(mo), l) by {
            prev.lemma_filter_push(r, owned_by(member_org_repo(mo), l));
            let f = prev.filter(owned_by(member_org_repo(mo), l));
            assert(repo_names(f.push(r)) =~= repo_names(f).push(r.name));
            if f.len() == 0 {
                assert(repo_names(f.push(r)) =~= seq![r.name]);
            }
        }
        assert forall|l: Seq<char>|
            #![trigger org_repos(outside_map@, l)]
            org_repos(outside_map@, l) == grouped(prev.push(r), outside_org_repo(mo), l) by {
            prev.lemma_filter_push(r, owned_by(outside_org_repo(mo), l));
            let f = prev.filter(owned_by(outside_org_repo(mo), l));
            assert(repo_names(f.push(r)) =~= repo_names(f).push(r.name));
            if f.len() == 0 {
                assert(repo_names(f.push(r)) =~= seq![r.name]);
            }
        }
    }
    assert(all.take(all.len() as int) =~= all);
    let organizations = OrgSources { member: member_map, collaborator: outside_map };
    assert forall|login: Seq<char>|
        !(has_org(organizations.member@, login) && has_org(organizations.collaborator@, login)) by {
        if has_org(organizations.member@, login) && has_org(organizations.collaborator@, login) {
            let i = choose|i: int|
                0 <= i < organizations.member@.len() && (#[trigger] organizations.member@[i]).0@ == login;
            let j = choose|j: int|
                0 <= j < organizations.collaborator@.len() && (#[trigger] organizations.collaborator@[j]).0@
                    == login;
            lemma_org_position_unique(organizations.member@, login, i);
            lemma_org_position_unique(organizations.collaborator@, login, j);
            let fm = all.filter(owned_by(member_org_repo(mo), login));
            let fo = all.filter(owned_by(outside_org_repo(mo), login));
            assert(org_repos(organizations.member@, login) is Some);
            assert(org_repos(organizations.collaborator@, login) is Some);
            assert(fm.len() > 0 && fo.len() > 0);
            all.lemma_filter_pred(owned_by(member_org_repo(mo), login), 0);
            all.lemma_filter_pred(owned_by(outside_org_repo(mo), login), 0);
        }
    }
    SourceMap { personal: SourceRepos { owner, collaborator }, organizations }
}


// ── Merging fetched issues and pull requests with the cache ─────────

/// The position of the first item numbered `n`.
pub open spec fn number_position<T: Numbered>(items: Seq<T>, n: u64) -> Option<int>
    decreases items.len(),
{
    if items.len() == 0 {
        None
    } else {
        match number_position(items.drop_last(), n) {
            Some(i) => Some(i),
            None => if items.last().key() == n {
                Some(items.len() - 1)
            } else {
                None
            },
        }
    }
}

/// `existing` with each item of `new`, in turn, replacing the first item of
/// its number, or appended where there is none.
pub open spec fn upserted<T: Numbered>(existing: Seq<T>, new: Seq<T>) -> Seq<T>
    decreases new.len(),
{
    if new.len() == 0 {
        existing
    } else {
        let m = upserted(existing, new.drop_last());
        match number_position(m, new.last().key()) {
            Some(i) => m.update(i, new.last()),
            None => m.push(new.last()),
        }
    }
}

/// The position found for a number holds that number and no earlier item
/// does; where none is found no item has it.
pub proof fn lemma_number_position<T: Numbered>(items: Seq<T>, n: u64)
    ensures
        number_position(items, n) matches Some(i) ==> 0 <= i < items.len() && items[i].key() == n && forall|k: int|
            0 <= k < i ==> (#[trigger] items[k]).key() != n,
        number_position(items, n) is None ==> forall|k: int| 0 <= k < items.len() ==> (#[trigger] items[k]).key() != n,
    decreases items.len(),
{
    if items.len() > 0 {
        let d = items.drop_last();
        lemma_number_position(d, n);
        match number_position(d, n) {
            Some(i) => {
                assert forall|k: int| 0 <= k < i implies (#[trigger] items[k]).key() != n by {
                    assert(items[k] == d[k]);
                }
                assert(items[i] == d[i]);
            },
            None => {
                assert forall|k: int| 0 <= k < items.len() - 1 implies (#[trigger] items[k]).key() != n by {
                    assert(items[k] == d[k]);
                }
            },
        }
    }
}

proof fn lemma_number_position_prefix<T: Numbered>(items: Seq<T>, n: u64, m: int)
    requires
        0 <= m <= items.len(),
        number_position(items.take(m), n) is Some,
    ensures
        number_position(items, n) == number_position(items.take(m), n),
    decreases items.len() - m,
{
    if m < items.len() {
        assert(items.take(m + 1).drop_last() =~= items.take(m));
        lemma_number_position_prefix(items, n, m + 1);
    } else {
        assert(items.take(m) =~= items);
    }
}

/// The position of the first item numbered `n`.
fn find_number<T: Numbered>(items: &Vec<T>, n: u64) -> (r: Option<usize>)
    ensures
        match r {
            Some(i) => i < items@.len() && number_position(items@, n) == Some(i as int),
            None => number_position(items@, n) is None,
        },
{
    let mut i: usize = 0;
    while i < items.len()
        invariant
            i <= items.len(),
            number_position(items@.take(i as int), n) is None,
        decreases items.len() - i,
    {
        assert(items@.take(i + 1).drop_last() =~= items@.take(i as int));
        if items[i].number_of() == n {
            proof {
                assert(items@.take(i + 1).last() == items@[i as int]);
                lemma_number_position_prefix(items@, n, i + 1);
            }
            return Some(i);
        }
        i = i + 1;
    }
    assert(items@.take(items.len() as int) =~= items@);
    None
}

/// Replaces in `existing` the first item of each number of `new` by it, and
/// appends the items of new numbers.
pub fn upsert_by_number<T: Numbered>(existing: &mut Vec<T>, new: Vec<T>)
    ensures
        final(existing)@ == upserted(old(existing)@, new@),
{
    let ghost start = existing@;
    let ghost all = new@;
    for item in it: new.into_iter()
        invariant
            it.seq() == all,
            existing@ == upserted(start, all.take(it.index() as int)),
    {
        let ghost k = it.index();
        assert(all[k as int] == item);
        assert(all.take(k + 1).drop_last() =~= all.take(k as int));
        assert(all.take(k + 1).last() == item);
        match find_number(existing, item.number_of()) {
            Some(pos) => {
                existing.set(pos, item);
            },
            None => {
                existing.push(item);
            },
        }
    }
    assert(all.take(all.len() as int) =~= all);
}

/// After an upsert a number is present where it was present before or is
/// brought by `new`; numbers that were unique stay unique.
pub proof fn law_upserted<T: Numbered>(existing: Seq<T>, new: Seq<T>)
    ensures
        forall|n: u64|
            #![trigger has_number(upserted(existing, new), n)]
            has_number(upserted(existing, new), n) <==> (has_number(existing, n) || has_number(new, n)),
        unique_numbers(existing) ==> unique_numbers(upserted(existing, new)),
    decreases new.len(),
{
    if new.len() > 0 {
        let d = new.drop_last();
        let x = new.last();
        law_upserted(existing, d);
        let m = upserted(existing, d);
        let r = upserted(existing, new);
        lemma_number_position(m, x.key());
        assert forall|n: u64|
            #![trigger has_number(r, n)]
            has_number(r, n) <==> (has_number(existing, n) || has_number(new, n)) by {
            if has_number(new, n) && !has_number(d, n) {
                let j = choose|j: int| 0 <= j < new.len() && (#[trigger] new[j]).key() == n;
                if j < d.len() {
                    assert(d[j] == new[j]);
                }
                assert(x.key() == n);
                match number_position(m, x.key()) {
                    Some(i) => assert(r[i] == x),
                    None => assert(r[m.len() as int] == x),
                }
            }
            if has_number(d, n) {
                let j = choose|j: int| 0 <= j < d.len() && (#[trigger] d[j]).key() == n;
                assert(new[j] == d[j]);
            }
            if has_number(m, n) {
                let j = choose|j: int| 0 <= j < m.len() && (#[trigger] m[j]).key() == n;
                match number_position(m, x.key()) {
                    Some(i) => {
                        if i == j {
                            assert(r[i] == x);
                            assert(new[new.len() - 1] == x);
                        } else {
                            assert(r[j] == m[j]);
                        }
                    },
                    None => assert(r[j] == m[j]),
                }
            }
            if has_number(r, n) {
                let j = choose|j: int| 0 <= j < r.len() && (#[trigger] r[j]).key() == n;
                match number_position(m, x.key()) {
                    Some(i) => {
                        if i == j {
                            assert(new[new.len() - 1] == x);
                        } else {
                            assert(r[j] == m[j]);
                        }
                    },
                    None => {
                        if j == m.len() {
                            assert(new[new.len() - 1] == x);
                        } else {
                            assert(r[j] == m[j]);
                        }
                    },
                }
            }
        }
        if unique_numbers(existing) {
            assert forall|i: int, j: int|
                0 <= i < r.len() && 0 <= j < r.len() && i != j implies (#[trigger] r[i]).key() != (
                #[trigger] r[j]).key() by {
                match number_position(m, x.key()) {
                    Some(p) => {
                        if i != p {
                            assert(r[i] == m[i]);
                        }
                        if j != p {
                            assert(r[j] == m[j]);
                        }
                    },
                    None => {
                        if i < m.len() {
                            assert(r[i] == m[i]);
                        }
                        if j < m.len() {
                            assert(r[j] == m[j]);
                        }
                    },
                }
            }
        }
    }
}

/// The issues that are open.
pub open spec fn open_issues(issues: Seq<Issue>) -> Seq<Issue> {
    issues.filter(|i: Issue| i.state == IssueState::Open)
}

/// The open issues of a repository after a sync: where the cache was
/// synced before (`since_known`), the cached ones with the fetched ones
/// replacing or joining them, keeping only those still open; else the
/// fetched ones.
pub open spec fn merged_open_issues(since_known: bool, cached: Seq<Issue>, fetched: Seq<Issue>) -> Seq<Issue> {
    if since_known {
        open_issues(upserted(cached, fetched))
    } else {
        fetched
    }
}

/// Keeps the issues that are open.
fn retain_open(issues: Vec<Issue>) -> (out: Vec<Issue>)
    ensures
        out@ == open_issues(issues@),
{
    let ghost all = issues@;
    let mut out: Vec<Issue> = Vec::new();
    proof {
        reveal(Seq::filter);
        assert(all.take(0) =~= Seq::<Issue>::empty());
    }
    for issue in it: issues.into_iter()
        invariant
            it.seq() == all,
            out@ == open_issues(all.take(it.index() as int)),
    {
        let ghost k = it.index();
        assert(all[k as int] == issue);
        assert(all.take(k + 1) =~= all.take(k as int).push(issue));
        proof {
            all.take(k as int).lemma_filter_push(issue, |i: Issue| i.state == IssueState::Open);
        }
        match issue.state {
            IssueState::Open => out.push(issue),
            IssueState::Closed => {},
        }
    }
    assert(all.take(all.len() as int) =~= all);
    out
}

/// Merge freshly fetched open issues with the cached ones.
pub fn merge_open_issues(since_known: bool, cached: Vec<Issue>, fetched: Vec<Issue>) -> (out: Vec<Issue>)
    ensures
        out@ == merged_open_issues(since_known, cached@, fetched@),
{
    if since_known {
        let mut merged = cached;
        upsert_by_number(&mut merged, fetched);
        retain_open(merged)
    } else {
        fetched
    }
}

/// The open pull requests of a repository after a sync: where the cache
/// was synced before, the cached ones with the fetched ones replacing or
/// joining them; else the fetched ones.
pub open spec fn merged_open_prs(since_known: bool, cached: Seq<PullRequest>, fetched: Seq<PullRequest>) -> Seq<
    PullRequest,
> {
    if since_known {
        upserted(cached, fetched)
    } else {
        fetched
    }
}

/// Merge freshly fetched open pull requests with the cached ones.
pub fn merge_open_prs(since_known: bool, cached: Vec<PullRequest>, fetched: Vec<PullRequest>) -> (out: Vec<
    PullRequest,
>)
    ensures
        out@ == merged_open_prs(since_known, cached@, fetched@),
{
    if since_known {
        let mut merged = cached;
        upsert_by_number(&mut merged, fetched);
        merged
    } else {
        fetched
    }
}

/// The pull requests of `open` whose number is not among `closed`.
pub open spec fn not_closed(open: Seq<PullRequest>, closed: Seq<PullRequest>) -> Seq<PullRequest> {
    open.filter(|p: PullRequest| !has_number(closed, p.number))
}

/// Remove from the open PRs any that are now in the merged/closed cache.
pub fn drop_closed_prs(open: Vec<PullRequest>, closed: &Vec<PullRequest>) -> (out: Vec<PullRequest>)
    ensures
        out@ == not_closed(open@, closed@),
        forall|k: int| 0 <= k < out@.len() ==> !has_number(closed@, (#[trigger] out@[k]).number),
{
    let ghost all = open@;
    let mut out: Vec<PullRequest> = Vec::new();
    proof {
        reveal(Seq::filter);
        assert(all.take(0) =~= Seq::<PullRequest>::empty());
    }
    for pr in it: open.into_iter()
        invariant
            it.seq() == all,
            out@ == not_closed(all.take(it.index() as int), closed@),
    {
        let ghost k = it.index();
        assert(all[k as int] == pr);
        assert(all.take(k + 1) =~= all.take(k as int).push(pr));
        proof {
            all.take(k as int).lemma_filter_push(pr, |p: PullRequest| !has_number(closed@, p.number));
        }
        if !any_has_number(closed, pr.number) {
            out.push(pr);
        }
    }
    assert(all.take(all.len() as int) =~= all);
    proof {
        assert forall|k: int| 0 <= k < out@.len() implies !has_number(closed@, (#[trigger] out@[k]).number) by {
            all.lemma_filter_pred(|p: PullRequest| !has_number(closed@, p.number), k);
        }
    }
    out
}

// ── Ordering cards ──────────────────────────────────────────────────

/// The place of a priority in card order: cards without a priority come
/// first, then `#1`, `#2` and so on (the order of `Option<Priority>`).
pub open spec fn priority_rank(p: Option<Priority>) -> int {
    match p {
        Some(q) => q.0 + 1,
        None => 0,
    }
}

impl SortKey for Card {
    open spec fn key_le(self, other: Self) -> bool {
        priority_rank(self.priority) <= priority_rank(other.priority)
    }

    proof fn lemma_key_total(a: Self, b: Self) {
    }

    proof fn lemma_key_transitive(a: Self, b: Self, c: Self) {
    }

    fn key_le_exec(&self, other: &Self) -> (r: bool) {
        let a: u16 = match self.priority {
            Some(q) => q.0 as u16 + 1,
            None => 0,
        };
        let b: u16 = match other.priority {
            Some(q) => q.0 as u16 + 1,
            None => 0,
        };
        a <= b
    }
}

/// Cards ordered by priority (`sort_by` on `priority`): stable, so cards of
/// equal priority keep their order.
pub fn sort_cards_by_priority(cards: Vec<Card>) -> (out: Vec<Card>)
    ensures
        out@ == stable_sorted(cards@),
        key_sorted(out@),
        out@.to_multiset() == cards@.to_multiset(),
        forall|i: int, j: int|
            0 <= i < j < out@.len() ==> {
                let a = (#[trigger] out@[i]).priority;
                let b = (#[trigger] out@[j]).priority;
                &&& !(a is Some && b is None)
                &&& (a is Some && b is Some ==> a.unwrap().0 <= b.unwrap().0)
            },
{
    let ghost input = cards@;
    let out = sort_by_key(cards);
    proof {
        law_cards_sorted_by_priority(input);
    }
    out
}

/// Sorting cards by priority puts the cards without a priority first and
/// then the others by ascending priority number (`#1` before `#2` …): no
/// card along the result has a higher number, or a priority, where a later
/// card has a lower number, or none. The result holds the same cards.
pub proof fn law_cards_sorted_by_priority(cards: Seq<Card>)
    ensures
        forall|i: int, j: int|
            0 <= i < j < stable_sorted(cards).len() ==> {
                let a = (#[trigger] stable_sorted(cards)[i]).priority;
                let b = (#[trigger] stable_sorted(cards)[j]).priority;
                &&& !(a is Some && b is None)
                &&& (a is Some && b is Some ==> a.unwrap().0 <= b.unwrap().0)
            },
        stable_sorted(cards).to_multiset() == cards.to_multiset(),
{
    let sorted = stable_sorted(cards);
    crate::stable_sort::law_stable_sorted(cards);
    assert forall|i: int, j: int| 0 <= i < j < sorted.len() implies {
        let a = (#[trigger] sorted[i]).priority;
        let b = (#[trigger] sorted[j]).priority;
        &&& !(a is Some && b is None)
        &&& (a is Some && b is Some ==> a.unwrap().0 <= b.unwrap().0)
    } by {
        assert(sorted[i].key_le(sorted[j]));
    }
}


// ── Dashboard state ─────────────────────────────────────────────────

/// The board's title for the selection: `No repository`, the one
/// repository's name (empty if its position is out of range), or the count.
pub open spec fn selection_title(repos: Seq<String>, selected: Seq<usize>) -> Seq<char> {
    if selected.len() == 0 {
        "No repository"@
    } else if selected.len() == 1 {
        if selected[0] < repos.len() {
            repos[selected[0] as int]@
        } else {
            Seq::empty()
        }
    } else {
        decimal(selected.len()) + " repos"@
    }
}

/// The board's title for the selected repositories.
pub fn repo_display(repos: &Vec<String>, selected: &Vec<usize>) -> (s: String)
    ensures
        s@ == selection_title(repos@, selected@),
{
    if selected.len() == 0 {
        copy_str("No repository")
    } else if selected.len() == 1 {
        if selected[0] < repos.len() {
            repos[selected[0]].clone()
        } else {
            String::new()
        }
    } else {
        let n = u64_to_decimal(selected.len() as u64);
        concat_str(n.as_str(), " repos")
    }
}

/// Some member has the login `login`.
pub open spec fn has_member(members: Seq<User>, login: Seq<char>) -> bool {
    exists|i: int| 0 <= i < members.len() && (#[trigger] members[i]).login@ == login
}

/// The members for avatar lookup: the given ones, with the signed-in user
/// added at the end unless a member has that login.
pub fn members_with_user(members: Vec<User>, user: &AuthenticatedUser) -> (out: Vec<User>)
    ensures
        has_member(members@, user.login@) ==> out@ == members@,
        !has_member(members@, user.login@) ==> out@ == members@.push(
            User { login: user.login, avatar_url: user.avatar_url },
        ),
{
    let mut out = members;
    let mut i: usize = 0;
    while i < out.len()
        invariant
            i <= out.len(),
            out@ == members@,
            forall|k: int| 0 <= k < i ==> (#[trigger] out@[k]).login@ != user.login@,
        decreases out.len() - i,
    {
        if str_eq(out[i].login.as_str(), user.login.as_str()) {
            assert(out@[i as int].login@ == user.login@);
            return out;
        }
        i = i + 1;
    }
    out.push(User { login: user.login.clone(), avatar_url: user.avatar_url.clone() });
    out
}

/// The number and title of a card.
pub open spec fn card_title_pair(c: Card) -> (u64, String) {
    match c.source {
        CardSource::Issue(i) => (i.number, i.title),
        CardSource::PullRequest(p) => (p.number, p.title),
    }
}

/// The (number, title) of each card, for `#` autocompletion.
pub fn card_titles(cards: &Vec<Card>) -> (out: Vec<(u64, String)>)
    ensures
        out@ == cards@.map_values(|c: Card| card_title_pair(c)),
{
    let mut out: Vec<(u64, String)> = Vec::new();
    let mut i: usize = 0;
    while i < cards.len()
        invariant
            i <= cards.len(),
            out@ == cards@.take(i as int).map_values(|c: Card| card_title_pair(c)),
        decreases cards.len() - i,
    {
        let pair = match &cards[i].source {
            CardSource::Issue(issue) => (issue.number, issue.title.clone()),
            CardSource::PullRequest(pr) => (pr.number, pr.title.clone()),
        };
        out.push(pair);
        assert(cards@.take(i + 1).map_values(|c: Card| card_title_pair(c)) =~= cards@.take(
            i as int,
        ).map_values(|c: Card| card_title_pair(c)).push(card_title_pair(cards@[i as int])));
        i = i + 1;
    }
    assert(cards@.take(cards.len() as int) =~= cards@);
    out
}

/// Some label of `labels` is named `name`.
pub open spec fn has_label_named(labels: Seq<Label>, name: Seq<char>) -> bool {
    exists|i: int| 0 <= i < labels.len() && (#[trigger] labels[i]).name@ == name
}

/// `all` followed by each label of `new` whose name is not there yet.
pub open spec fn labels_added(all: Seq<Label>, new: Seq<Label>) -> Seq<Label>
    decreases new.len(),
{
    if new.len() == 0 {
        all
    } else {
        let r = labels_added(all, new.drop_last());
        if has_label_named(r, new.last().name@) {
            r
        } else {
            r.push(new.last())
        }
    }
}

/// Adds to the repository labels each label whose name is new.
pub fn add_labels(all: &mut Vec<Label>, labels: Vec<Label>)
    ensures
        final(all)@ == labels_added(old(all)@, labels@),
{
    let ghost start = all@;
    let ghost new = labels@;
    for label in it: labels.into_iter()
        invariant
            it.seq() == new,
            all@ == labels_added(start, new.take(it.index() as int)),
    {
        let ghost k = it.index();
        assert(new[k as int] == label);
        assert(new.take(k + 1).drop_last() =~= new.take(k as int));
        assert(new.take(k + 1).last() == label);
        let mut found = false;
        let mut j: usize = 0;
        while j < all.len()
            invariant
                j <= all.len(),
                !found ==> forall|m: int| 0 <= m < j ==> (#[trigger] all@[m]).name@ != label.name@,
                found ==> has_label_named(all@, label.name@),
            decreases all.len() - j,
        {
            if str_eq(all[j].name.as_str(), label.name.as_str()) {
                found = true;
            }
            j = j + 1;
        }
        if !found {
            all.push(label);
        }
    }
    assert(new.take(new.len() as int) =~= new);
}

/// The personal repositories a filter shows.
pub open spec fn filtered_personal(m: SourceMap, filter: PersonalFilter) -> Seq<String> {
    match filter {
        PersonalFilter::Owner => m.personal.owner@,
        PersonalFilter::Collaborator => m.personal.collaborator@,
    }
}

/// Derive the personal repositories from the source map for a filter.
pub fn personal_repos_for(map: &SourceMap, filter: PersonalFilter) -> (repos: Vec<String>)
    ensures
        repos@ == filtered_personal(*map, filter),
{
    match filter {
        PersonalFilter::Owner => copy_strings(&map.personal.owner),
        PersonalFilter::Collaborator => copy_strings(&map.personal.collaborator),
    }
}

/// The position of the first occurrence of `idx`.
pub open spec fn index_position(selected: Seq<usize>, idx: usize) -> Option<int>
    decreases selected.len(),
{
    if selected.len() == 0 {
        None
    } else {
        match index_position(selected.drop_last(), idx) {
            Some(i) => Some(i),
            None => if selected.last() == idx {
                Some(selected.len() - 1)
            } else {
                None
            },
        }
    }
}

/// Toggles a repository's checkbox: unchecks it (removing its first
/// occurrence) where it is selected, else checks it (appending it).
/// Returns whether it is checked now.
pub fn toggle_repo(selected: &mut Vec<usize>, idx: usize) -> (checked: bool)
    ensures
        match index_position(old(selected)@, idx) {
            Some(p) => !checked && final(selected)@ == old(selected)@.remove(p),
            None => checked && final(selected)@ == old(selected)@.push(idx),
        },
{
    let mut i: usize = 0;
    while i < selected.len()
        invariant
            i <= selected.len(),
            selected@ == old(selected)@,
            index_position(selected@.take(i as int), idx) is None,
        decreases selected.len() - i,
    {
        assert(selected@.take(i + 1).drop_last() =~= selected@.take(i as int));
        if selected[i] == idx {
            proof {
                assert(selected@.take(i + 1).last() == selected@[i as int]);
                lemma_index_position_prefix(selected@, idx, i + 1);
            }
            selected.remove(i);
            return false;
        }
        i = i + 1;
    }
    assert(selected@.take(selected.len() as int) =~= selected@);
    selected.push(idx);
    true
}

proof fn lemma_index_position_prefix(selected: Seq<usize>, idx: usize, n: int)
    requires
        0 <= n <= selected.len(),
        index_position(selected.take(n), idx) is Some,
    ensures
        index_position(selected, idx) == index_position(selected.take(n), idx),
    decreases selected.len() - n,
{
    if n < selected.len() {
        assert(selected.take(n + 1).drop_last() =~= selected.take(n));
        lemma_index_position_prefix(selected, idx, n + 1);
    } else {
        assert(selected.take(n) =~= selected);
    }
}

/// The names of the selected repositories that exist, in selection order.
pub open spec fn selection_names(repos: Seq<String>, selected: Seq<usize>) -> Seq<String>
    decreases selected.len(),
{
    if selected.len() == 0 {
        Seq::empty()
    } else {
        let r = selection_names(repos, selected.drop_last());
        if selected.last() < repos.len() {
            r.push(repos[selected.last() as int])
        } else {
            r
        }
    }
}

/// The names of the selected repositories (saved as the last selection).
pub fn selected_repo_names(repos: &Vec<String>, selected: &Vec<usize>) -> (names: Vec<String>)
    ensures
        names@ == selection_names(repos@, selected@),
{
    let mut names: Vec<String> = Vec::new();
    let mut i: usize = 0;
    while i < selected.len()
        invariant
            i <= selected.len(),
            names@ == selection_names(repos@, selected@.take(i as int)),
        decreases selected.len() - i,
    {
        assert(selected@.take(i + 1).drop_last() =~= selected@.take(i as int));
        assert(selected@.take(i + 1).last() == selected@[i as int]);
        if selected[i] < repos.len() {
            names.push(repos[selected[i]].clone());
        }
        i = i + 1;
    }
    assert(selected@.take(selected.len() as int) =~= selected@);
    names
}

/// The name a source is saved under as the last source.
pub fn source_setting_name(source: &SourceKind) -> (s: String)
    ensures
        s@ == match *source {
            SourceKind::Personal => "personal"@,
            SourceKind::Organization(org) => org@,
        },
{
    match source {
        SourceKind::Personal => copy_str("personal"),
        SourceKind::Organization(org) => org.clone(),
    }
}

/// The name the settings panel shows for a source.
pub fn source_title(source: &SourceKind) -> (s: String)
    ensures
        s@ == match *source {
            SourceKind::Personal => "Personal"@,
            SourceKind::Organization(org) => org@,
        },
{
    match source {
        SourceKind::Personal => copy_str("Personal"),
        SourceKind::Organization(org) => org.clone(),
    }
}

/// The cached profile serves when it is fresh and present.
pub fn use_cached_profile(dir: &BoardCache, now: i64) -> (b: bool)
    ensures
        b == (fresh(lookup(dir.entries@, "profile.json"@), TTL_REPOS, now) && cached_profile(dir.entries@)
            is Some),
{
    is_profile_fresh(dir, now) && load_profile(dir).is_some()
}

/// The number of a card's issue or pull request.
pub open spec fn number_of_card(c: Card) -> u64 {
    match c.source {
        CardSource::Issue(i) => i.number,
        CardSource::PullRequest(p) => p.number,
    }
}

/// Two cards stand for the same issue or pull request of one repository.
pub open spec fn same_card(a: Card, b: Card) -> bool {
    number_of_card(a) == number_of_card(b) && a.owner@ == b.owner@ && a.repo@ == b.repo@
}

/// Replaces the first card standing for the same issue or pull request as
/// `updated` (a card just closed from the detail panel), if any.
pub fn replace_card(cards: &mut Vec<Card>, updated: Card)
    ensures
        (exists|k: int| 0 <= k < old(cards)@.len() && same_card(#[trigger] old(cards)@[k], updated)) ==> exists|p: int|
            0 <= p < old(cards)@.len() && same_card(old(cards)@[p], updated) && (forall|k: int|
                0 <= k < p ==> !same_card(#[trigger] old(cards)@[k], updated)) && final(cards)@
                == old(cards)@.update(p, updated),
        (forall|k: int| 0 <= k < old(cards)@.len() ==> !same_card(#[trigger] old(cards)@[k], updated))
            ==> final(cards)@ == old(cards)@,
{
    let n2 = match &updated.source {
        CardSource::Issue(i) => i.number,
        CardSource::PullRequest(p) => p.number,
    };
    let mut i: usize = 0;
    while i < cards.len()
        invariant
            i <= cards.len(),
            cards@ == old(cards)@,
            n2 == number_of_card(updated),
            forall|k: int| 0 <= k < i ==> !same_card(#[trigger] old(cards)@[k], updated),
        decreases cards.len() - i,
    {
        let n1 = match &cards[i].source {
            CardSource::Issue(x) => x.number,
            CardSource::PullRequest(x) => x.number,
        };
        if n1 == n2 && str_eq(cards[i].owner.as_str(), updated.owner.as_str()) && str_eq(
            cards[i].repo.as_str(),
            updated.repo.as_str(),
        ) {
            cards.set(i, updated);
            return;
        }
        i = i + 1;
    }
}

} // verus!
