//! What is listed of projects, of repositories and of what a host provides.
use vstd::prelude::*;

use crate::admission::{copy_inputs, input_views};
use crate::fleet::{lemma_texts_total, lemma_texts_transitive, texts4_le, texts_le};
use crate::ordered::{sort_dedup, sorted_unique, text_map, OrderedMap};
use crate::repos::{repo_at, resolve_repo_selector, selected_path, RegistryView, RepoIdentity, RepoRegistry, RepoSelector};
use crate::sorting::{rank_sort, sort_ranked, Ranked};
use crate::text::{concat2, opt, opt_clone, str_eq, strs, strs_clone};

verus! {

/// A repository of a project that is listed, or a part of it.
#[derive(Debug, PartialEq, Eq)]
pub struct ListedMember {
    pub repo: String,
    pub subpath: Option<String>,
}

/// A project that is listed.
#[derive(Debug, PartialEq, Eq)]
pub struct ListedProjectRecord {
    pub namespace: String,
    pub name: String,
    pub display_name: String,
    pub issue_source: Option<String>,
    pub default_workflow_ref: String,
    pub members: Vec<ListedMember>,
    /// The fields on which its copies disagree.
    pub conflicts: Vec<String>,
}

/// A repository in the list of a project.
#[derive(Debug, PartialEq, Eq)]
pub struct ProjectListRepository {
    pub key: String,
    pub slug: Option<String>,
    pub subpaths: Vec<String>,
}

/// A project in the list.
#[derive(Debug, PartialEq, Eq)]
pub struct ProjectListEntry {
    pub namespace: String,
    pub name: String,
    pub display_name: String,
    pub issue_source: Option<String>,
    pub default_workflow_ref: String,
    pub repositories: Vec<ProjectListRepository>,
    pub conflicts: Vec<String>,
}

/// Where a project stands in the list.
pub open spec fn entry_key(e: ProjectListEntry) -> Seq<Seq<char>> {
    seq![e.namespace@, e.name@, ""@, ""@]
}

impl Ranked for ProjectListEntry {
    open spec fn ranks_before(self, other: Self) -> bool {
        texts_le(entry_key(self), entry_key(other))
    }

    proof fn ranks_total(a: Self, b: Self) {
        lemma_texts_total(entry_key(a), entry_key(b));
    }

    proof fn ranks_transitive(a: Self, b: Self, c: Self) {
        lemma_texts_transitive(entry_key(a), entry_key(b), entry_key(c));
    }

    fn rank_before(&self, other: &Self) -> (r: bool) {
        texts4_le(
            (self.namespace.as_str(), self.name.as_str(), "", ""),
            (other.namespace.as_str(), other.name.as_str(), "", ""),
        )
    }
}

/// The repositories of members.
pub open spec fn member_repos(members: Seq<ListedMember>) -> Seq<Seq<char>> {
    Seq::new(members.len(), |i: int| members[i].repo@)
}

/// The parts of a repository that members name.
pub open spec fn member_subpaths(members: Seq<ListedMember>, repo: Seq<char>) -> Seq<Seq<char>>
    decreases members.len(),
{
    if members.len() == 0 {
        Seq::empty()
    } else {
        let before = member_subpaths(members.drop_last(), repo);
        match members.last().subpath {
            Some(path) => if members.last().repo@ == repo {
                before.push(path@)
            } else {
                before
            },
            None => before,
        }
    }
}

/// `r` lists a repository of a project.
pub open spec fn lists_repository(
    r: ProjectListRepository,
    key: Seq<char>,
    members: Seq<ListedMember>,
    slugs: Map<Seq<char>, Seq<char>>,
) -> bool {
    &&& r.key@ == key
    &&& opt(r.slug) == (if slugs.dom().contains(key) {
        Some(slugs[key])
    } else {
        None
    })
    &&& strs(r.subpaths@) == sorted_unique(member_subpaths(members, key))
}

/// `e` lists a project: each of its repositories once, in order, with the parts
/// of it that are named.
pub open spec fn lists_project(e: ProjectListEntry, p: ListedProjectRecord, slugs: Map<Seq<char>, Seq<char>>) -> bool {
    let keys = sorted_unique(member_repos(p.members@));
    &&& e.namespace@ == p.namespace@
    &&& e.name@ == p.name@
    &&& e.display_name@ == p.display_name@
    &&& opt(e.issue_source) == opt(p.issue_source)
    &&& e.default_workflow_ref@ == p.default_workflow_ref@
    &&& strs(e.conflicts@) == strs(p.conflicts@)
    &&& e.repositories@.len() == keys.len()
    &&& forall|i: int| 0 <= i < keys.len() ==> lists_repository(#[trigger] e.repositories@[i], keys[i], p.members@, slugs)
}

/// `list` lists projects, one by one.
pub open spec fn lists_projects(list: Seq<ProjectListEntry>, projects: Seq<ListedProjectRecord>, slugs: Map<Seq<char>, Seq<char>>) -> bool {
    &&& list.len() == projects.len()
    &&& forall|i: int| 0 <= i < list.len() ==> lists_project(#[trigger] list[i], projects[i], slugs)
}

fn subpaths_of(members: &Vec<ListedMember>, repo: &str) -> (r: Vec<String>)
    ensures
        strs(r@) == sorted_unique(member_subpaths(members@, repo@)),
{
    let mut all: Vec<String> = Vec::new();
    let mut i: usize = 0;
    assert(strs(all@) =~= member_subpaths(members@.take(0), repo@));
    while i < members.len()
        invariant
            i <= members@.len(),
            strs(all@) == member_subpaths(members@.take(i as int), repo@),
        decreases members.len() - i,
    {
        assert(members@.take(i + 1).drop_last() =~= members@.take(i as int));
        assert(members@.take(i + 1).last() == members@[i as int]);
        match &members[i].subpath {
            Some(path) => {
                if str_eq(members[i].repo.as_str(), repo) {
                    let ghost was = strs(all@);
                    all.push(path.clone());
                    assert(strs(all@) =~= was.push(path@));
                }
            },
            None => {},
        }
        i = i + 1;
    }
    assert(members@.take(members@.len() as int) =~= members@);
    sort_dedup(&all)
}

fn list_project(p: &ListedProjectRecord, slugs: &OrderedMap<String>) -> (e: ProjectListEntry)
    ensures
        lists_project(e, *p, text_map(slugs@)),
{
    let mut repos: Vec<String> = Vec::new();
    let mut i: usize = 0;
    while i < p.members.len()
        invariant
            i <= p.members@.len(),
            repos@.len() == i,
            forall|k: int| 0 <= k < i ==> (#[trigger] repos@[k])@ == p.members@[k].repo@,
        decreases p.members.len() - i,
    {
        repos.push(p.members[i].repo.clone());
        i = i + 1;
    }
    assert(strs(repos@) =~= member_repos(p.members@));
    let keys = sort_dedup(&repos);
    let ghost all = strs(keys@);
    let mut repositories: Vec<ProjectListRepository> = Vec::new();
    let mut k: usize = 0;
    assert(text_map(slugs@).dom() =~= slugs@.dom());
    while k < keys.len()
        invariant
            k <= keys@.len(),
            all == strs(keys@),
            text_map(slugs@).dom() == slugs@.dom(),
            repositories@.len() == k,
            forall|j: int|
                0 <= j < k ==> lists_repository(#[trigger] repositories@[j], all[j], p.members@, text_map(slugs@)),
        decreases keys.len() - k,
    {
        let slug = match slugs.get(keys[k].as_str()) {
            Some(slug) => Some(slug.clone()),
            None => None,
        };
        assert(all[k as int] == keys@[k as int]@);
        let subpaths = subpaths_of(&p.members, keys[k].as_str());
        repositories.push(ProjectListRepository { key: keys[k].clone(), slug, subpaths });
        k = k + 1;
    }
    ProjectListEntry {
        namespace: p.namespace.clone(),
        name: p.name.clone(),
        display_name: p.display_name.clone(),
        issue_source: opt_clone(&p.issue_source),
        default_workflow_ref: p.default_workflow_ref.clone(),
        repositories,
        conflicts: strs_clone(&p.conflicts),
    }
}

/// Lists projects, by namespace and name. `slugs` are the labels that
/// repositories are shown with.
pub fn list_projects(projects: &Vec<ListedProjectRecord>, slugs: &OrderedMap<String>) -> (r: Vec<ProjectListEntry>)
    ensures
        exists|list: Seq<ProjectListEntry>|
            #[trigger] lists_projects(list, projects@, text_map(slugs@)) && r@ == rank_sort(list),
{
    let mut list: Vec<ProjectListEntry> = Vec::new();
    let mut i: usize = 0;
    while i < projects.len()
        invariant
            i <= projects@.len(),
            list@.len() == i,
            forall|k: int| 0 <= k < i ==> lists_project(#[trigger] list@[k], projects@[k], text_map(slugs@)),
        decreases projects.len() - i,
    {
        list.push(list_project(&projects[i], slugs));
        i = i + 1;
    }
    assert(lists_projects(list@, projects@, text_map(slugs@)));
    sort_ranked(list)
}

/// Something that a host provides.
#[derive(Debug, PartialEq, Eq)]
pub struct HostProvider {
    pub category: String,
    pub implementation: String,
    pub name: String,
    pub healthy: bool,
}

/// Where a provider stands in the list.
pub open spec fn provider_key(p: HostProvider) -> Seq<Seq<char>> {
    seq![p.category@, p.name@, ""@, ""@]
}

impl Ranked for HostProvider {
    open spec fn ranks_before(self, other: Self) -> bool {
        texts_le(provider_key(self), provider_key(other))
    }

    proof fn ranks_total(a: Self, b: Self) {
        lemma_texts_total(provider_key(a), provider_key(b));
    }

    proof fn ranks_transitive(a: Self, b: Self, c: Self) {
        lemma_texts_transitive(provider_key(a), provider_key(b), provider_key(c));
    }

    fn rank_before(&self, other: &Self) -> (r: bool) {
        texts4_le(
            (self.category.as_str(), self.name.as_str(), "", ""),
            (other.category.as_str(), other.name.as_str(), "", ""),
        )
    }
}

/// Whether a provider is among some, by its category and implementation.
pub open spec fn provides(list: Seq<HostProvider>, p: HostProvider) -> bool {
    exists|i: int|
        0 <= i < list.len() && (#[trigger] list[i]).category@ == p.category@ && list[i].implementation@ == p.implementation@
}

/// What was found, and what was advertised besides.
pub open spec fn provided(found: Seq<HostProvider>, advertised: Seq<HostProvider>) -> Seq<HostProvider>
    decreases advertised.len(),
{
    if advertised.len() == 0 {
        found
    } else {
        let before = provided(found, advertised.drop_last());
        if provides(before, advertised.last()) {
            before
        } else {
            before.push(advertised.last())
        }
    }
}

/// What a host provides: what was found, and what it advertises besides, by
/// category and name.
pub fn host_providers(found: Vec<HostProvider>, advertised: &Vec<HostProvider>) -> (r: Vec<HostProvider>)
    ensures
        r@ == rank_sort(provided(found@, advertised@)),
{
    let ghost start = found@;
    let mut list = found;
    let mut i: usize = 0;
    assert(advertised@.take(0).len() == 0);
    while i < advertised.len()
        invariant
            i <= advertised@.len(),
            list@ == provided(start, advertised@.take(i as int)),
        decreases advertised.len() - i,
    {
        let p = &advertised[i];
        assert(advertised@.take(i + 1).drop_last() =~= advertised@.take(i as int));
        assert(advertised@.take(i + 1).last() == *p);
        let mut k: usize = 0;
        let mut there = false;
        while k < list.len() && !there
            invariant
                k <= list@.len(),
                there ==> provides(list@, *p),
                !there ==> forall|j: int|
                    0 <= j < k ==> !((#[trigger] list@[j]).category@ == p.category@ && list@[j].implementation@
                        == p.implementation@),
            decreases list.len() - k + (if there { 0int } else { 1int }),
        {
            if str_eq(list[k].category.as_str(), p.category.as_str()) && str_eq(
                list[k].implementation.as_str(),
                p.implementation.as_str(),
            ) {
                there = true;
            } else {
                k = k + 1;
            }
        }
        if !there {
            assert(!provides(list@, *p));
            list.push(
                HostProvider {
                    category: p.category.clone(),
                    implementation: p.implementation.clone(),
                    name: p.name.clone(),
                    healthy: p.healthy,
                },
            );
        }
        i = i + 1;
    }
    assert(advertised@.take(advertised@.len() as int) =~= advertised@);
    sort_ranked(list)
}

/// The providers of a category, by name.
#[derive(Debug, PartialEq, Eq)]
pub struct ProviderNames {
    pub category: String,
    pub names: Vec<String>,
}

/// What is known of a tracked repository besides its identity.
#[derive(Debug, PartialEq, Eq)]
pub struct RepoDetails {
    pub preferred_path: String,
    pub name: String,
    /// What each kind of thing is called here, by kind.
    pub labels: Vec<(String, String)>,
    pub provider_names: Vec<ProviderNames>,
    pub slug: Option<String>,
    /// The factories that made no provider, each with what it lacks.
    pub unmet_requirements: Vec<(String, String)>,
}

/// A tracked repository, as it is listed.
#[derive(Debug, PartialEq, Eq)]
pub struct RepoInfo {
    pub identity: RepoIdentity,
    pub repository_key: Option<String>,
    pub path: String,
    pub name: String,
    pub labels: Vec<(String, String)>,
    pub provider_names: Vec<ProviderNames>,
    /// The providers whose health is known.
    pub provider_health: Vec<(String, bool)>,
    pub loading: bool,
}

/// `r` names the providers that another list does.
pub open spec fn same_providers(r: Seq<ProviderNames>, other: Seq<ProviderNames>) -> bool {
    &&& r.len() == other.len()
    &&& forall|i: int|
        0 <= i < r.len() ==> (#[trigger] r[i]).category@ == other[i].category@ && strs(r[i].names@) == strs(other[i].names@)
}

/// `r` lists the `i`th tracked repository. Nothing is known of the health of
/// its providers, and it is never still loading.
pub open spec fn lists_repo(r: RepoInfo, registry: RegistryView, i: int, d: RepoDetails) -> bool {
    &&& r.identity@ == registry.repos[i].identity
    &&& opt(r.repository_key) == (if registry.keys.dom().contains(d.preferred_path@) {
        Some(registry.keys[d.preferred_path@])
    } else {
        None
    })
    &&& r.path@ == d.preferred_path@
    &&& r.name@ == d.name@
    &&& input_views(r.labels@) == input_views(d.labels@)
    &&& same_providers(r.provider_names@, d.provider_names@)
    &&& r.provider_health@.len() == 0
    &&& !r.loading
}

fn copy_providers(list: &Vec<ProviderNames>) -> (r: Vec<ProviderNames>)
    ensures
        same_providers(r@, list@),
{
    let mut r: Vec<ProviderNames> = Vec::new();
    let mut i: usize = 0;
    while i < list.len()
        invariant
            i <= list@.len(),
            r@.len() == i,
            forall|k: int|
                0 <= k < i ==> (#[trigger] r@[k]).category@ == list@[k].category@ && strs(r@[k].names@) == strs(
                    list@[k].names@,
                ),
        decreases list.len() - i,
    {
        r.push(ProviderNames { category: list[i].category.clone(), names: strs_clone(&list[i].names) });
        i = i + 1;
    }
    r
}

/// Lists the tracked repositories, in the order they came. `details` says what
/// else is known of each.
pub fn list_repos(registry: &RepoRegistry, details: &Vec<RepoDetails>) -> (r: Vec<RepoInfo>)
    requires
        details@.len() == registry@.repos.len(),
    ensures
        r@.len() == registry@.repos.len(),
        forall|i: int| 0 <= i < r@.len() ==> lists_repo(#[trigger] r@[i], registry@, i, details@[i]),
{
    let mut r: Vec<RepoInfo> = Vec::new();
    let mut i: usize = 0;
    while i < registry.len()
        invariant
            i <= registry@.repos.len(),
            details@.len() == registry@.repos.len(),
            r@.len() == i,
            forall|k: int| 0 <= k < r@.len() ==> lists_repo(#[trigger] r@[k], registry@, k, details@[k]),
        decreases registry@.repos.len() - i,
    {
        let d = &details[i];
        r.push(
            RepoInfo {
                identity: registry.repo(i).identity.copy(),
                repository_key: registry.repository_key_for_path(d.preferred_path.as_str()),
                path: d.preferred_path.clone(),
                name: d.name.clone(),
                labels: copy_inputs(&d.labels),
                provider_names: copy_providers(&d.provider_names),
                provider_health: Vec::new(),
                loading: false,
            },
        );
        i = i + 1;
    }
    r
}

/// How a tracked repository stands.
#[derive(Debug, PartialEq, Eq)]
pub struct RepoSummary {
    pub path: String,
    pub slug: Option<String>,
    /// The providers whose health is known.
    pub provider_health: Vec<(String, bool)>,
    pub unmet_requirements: Vec<(String, String)>,
}

/// `s` sums up a tracked repository. Nothing is known of the health of its
/// providers.
pub open spec fn sums_up(s: RepoSummary, d: RepoDetails) -> bool {
    &&& s.path@ == d.preferred_path@
    &&& opt(s.slug) == opt(d.slug)
    &&& s.provider_health@.len() == 0
    &&& input_views(s.unmet_requirements@) == input_views(d.unmet_requirements@)
}

/// How the tracked repositories stand, in the order they came.
pub fn get_status(details: &Vec<RepoDetails>) -> (r: Vec<RepoSummary>)
    ensures
        r@.len() == details@.len(),
        forall|i: int| 0 <= i < r@.len() ==> sums_up(#[trigger] r@[i], details@[i]),
{
    let mut r: Vec<RepoSummary> = Vec::new();
    let mut i: usize = 0;
    while i < details.len()
        invariant
            i <= details@.len(),
            r@.len() == i,
            forall|k: int| 0 <= k < r@.len() ==> sums_up(#[trigger] r@[k], details@[k]),
        decreases details.len() - i,
    {
        let d = &details[i];
        r.push(
            RepoSummary {
                path: d.preferred_path.clone(),
                slug: opt_clone(&d.slug),
                provider_health: Vec::new(),
                unmet_requirements: copy_inputs(&d.unmet_requirements),
            },
        );
        i = i + 1;
    }
    r
}

/// A provider of a repository, as it is reported.
#[derive(Debug, PartialEq, Eq)]
pub struct ProviderInfo {
    pub category: String,
    pub name: String,
    pub healthy: bool,
    pub disabled_reason: Option<String>,
}

/// The providers of a repository: those that were activated, each healthy.
pub fn provider_infos(activated: &Vec<(String, String)>) -> (r: Vec<ProviderInfo>)
    ensures
        r@.len() == activated@.len(),
        forall|i: int|
            0 <= i < r@.len() ==> (#[trigger] r@[i]).category@ == activated@[i].0@ && r@[i].name@ == activated@[i].1@
                && r@[i].healthy && r@[i].disabled_reason is None,
{
    let mut r: Vec<ProviderInfo> = Vec::new();
    let mut i: usize = 0;
    while i < activated.len()
        invariant
            i <= activated@.len(),
            r@.len() == i,
            forall|k: int|
                0 <= k < i ==> (#[trigger] r@[k]).category@ == activated@[k].0@ && r@[k].name@ == activated@[k].1@
                    && r@[k].healthy && r@[k].disabled_reason is None,
        decreases activated.len() - i,
    {
        r.push(
            ProviderInfo {
                category: activated[i].0.clone(),
                name: activated[i].1.clone(),
                healthy: true,
                disabled_reason: None,
            },
        );
        i = i + 1;
    }
    r
}

/// The place of the repository whose providers are asked for.
pub fn providers_of(registry: &RepoRegistry, repo: &RepoSelector) -> (r: Result<usize, String>)
    ensures
        match selected_path(registry@, *repo) {
            Err(e) => r matches Err(text) && text@ == e,
            Ok(path) => {
                let known = registry@.identities.dom().contains(path);
                let at = repo_at(registry@.repos, registry@.identities[path]);
                if known && at < registry@.repos.len() {
                    r == Ok::<usize, String>(at as usize)
                } else {
                    r matches Err(text) && text@ == "repo not found: "@ + path
                }
            },
        },
{
    let path = match resolve_repo_selector(registry, repo) {
        Err(e) => {
            return Err(e);
        },
        Ok(path) => path,
    };
    match registry.tracked_repo_identity_for_path(path.as_str()) {
        None => Err(concat2("repo not found: ", path.as_str())),
        Some(identity) => match registry.position(&identity) {
            None => Err(concat2("repo not found: ", path.as_str())),
            Some(at) => Ok(at),
        },
    }
}

} // verus!
