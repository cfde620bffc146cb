//! Projects: the repositories they are made of, how they are declared and
//! added, and the project that stands for a whole repository.
use vstd::prelude::*;

use crate::evidence::present;
use crate::materialize::{checkout_choice, choose_checkout, LocalCheckout};
use crate::naming::{checked_project_name, validate_project_name};
use crate::ordered::{same_texts, sort_dedup, sorted_unique, text_map, OrderedMap};
use crate::sorting::{rank_sort, sort_ranked, Ranked};
use crate::text::{
    concat2, concat3, concat4, concat6, holds, join, join_strs, lemma_lex_asymmetric, lemma_lex_total, lemma_lex_transitive,
    lex_le, lex_lt, opt, opt_clone, opt_eq, str_eq, str_lt, strs, strs_clone,
};

verus! {

/// What was read of a repository that a project names.
#[derive(Debug, PartialEq, Eq)]
pub struct RepositoryReading {
    /// What is wrong with its key.
    pub key_error: Option<String>,
    /// Its canonical remote; none for a local repository.
    pub url: Option<String>,
    pub default_branch: Option<String>,
}

/// A repository of a project.
#[derive(Debug, PartialEq, Eq)]
pub struct ProjectMember {
    pub repo: String,
    /// Whether the member has code: it says so, or says nothing of its roles.
    pub code: bool,
    pub default_branch: Option<String>,
    pub subpath: Option<String>,
    pub reading: Result<RepositoryReading, String>,
}

/// The branch that work on a member starts from.
pub open spec fn member_branch(member: ProjectMember) -> Option<Seq<char>> {
    match member.default_branch {
        Some(branch) => Some(branch@),
        None => match member.reading {
            Ok(reading) => opt(reading.default_branch),
            Err(_) => None,
        },
    }
}

/// Whether a member was resolved to a repository that can be worked on.
pub open spec fn resolved(member: ProjectMember) -> bool {
    member.code && (member.reading matches Ok(reading) && reading.key_error is None && reading.url is Some)
}

/// The first resolved member of the same repository.
pub open spec fn first_of(members: Seq<ProjectMember>, repo: Seq<char>) -> int
    decreases members.len(),
{
    if members.len() == 0 || (resolved(members[0]) && members[0].repo@ == repo) {
        0
    } else {
        1 + first_of(members.drop_first(), repo)
    }
}

/// What keeps a member from being worked on.
pub open spec fn member_problem(members: Seq<ProjectMember>, i: int) -> Option<Seq<char>> {
    let member = members[i];
    if !member.code {
        None
    } else {
        match member.reading {
            Err(e) => Some("repository "@ + member.repo@ + ": "@ + e@),
            Ok(reading) => match reading.key_error {
                Some(e) => Some(e@),
                None => if reading.url is None {
                    Some("repository "@ + member.repo@ + " has no transport remote"@)
                } else if member_branch(members[first_of(members, member.repo@)]) != member_branch(member) {
                    Some("repository "@ + member.repo@ + " has conflicting project default branches"@)
                } else {
                    None
                },
            },
        }
    }
}

pub open spec fn member_problems(members: Seq<ProjectMember>) -> Seq<Option<Seq<char>>> {
    Seq::new(members.len(), |i: int| member_problem(members, i))
}

/// The repositories of the resolved members.
pub open spec fn resolved_repos(members: Seq<ProjectMember>) -> Seq<Seq<char>>
    decreases members.len(),
{
    if members.len() == 0 {
        Seq::empty()
    } else if resolved(members.last()) {
        resolved_repos(members.drop_last()).push(members.last().repo@)
    } else {
        resolved_repos(members.drop_last())
    }
}

/// The subpaths that the resolved members name of a repository.
pub open spec fn subpaths_of(members: Seq<ProjectMember>, repo: Seq<char>) -> Seq<Seq<char>>
    decreases members.len(),
{
    if members.len() == 0 {
        Seq::empty()
    } else {
        let before = subpaths_of(members.drop_last(), repo);
        let last = members.last();
        if resolved(last) && last.repo@ == repo && last.subpath is Some {
            before.push(last.subpath->0@)
        } else {
            before
        }
    }
}

/// The repositories, among some, whose branch is not known.
pub open spec fn branchless(members: Seq<ProjectMember>, repos: Seq<Seq<char>>) -> Seq<Seq<char>>
    decreases repos.len(),
{
    if repos.len() == 0 {
        Seq::empty()
    } else {
        let before = branchless(members, repos.drop_last());
        if member_branch(members[first_of(members, repos.last())]) is None {
            before.push("repository "@ + repos.last() + " has no resolved default branch"@)
        } else {
            before
        }
    }
}

/// All that keeps a project from being ready.
pub open spec fn unresolved(members: Seq<ProjectMember>) -> Seq<Seq<char>> {
    present(member_problems(members)) + branchless(members, sorted_unique(resolved_repos(members)))
}

/// A repository that a convoy works on.
#[derive(Debug, PartialEq, Eq)]
pub struct RepositorySnapshot {
    pub repo_ref: String,
    pub url: String,
    pub branch: String,
    pub subpaths: Vec<String>,
}

/// `s` is the snapshot of a repository.
pub open spec fn snapshot_of(s: RepositorySnapshot, members: Seq<ProjectMember>, repo: Seq<char>) -> bool {
    let first = members[first_of(members, repo)];
    &&& s.repo_ref@ == repo
    &&& (first.reading matches Ok(reading) && opt(reading.url) == Some(s.url@))
    &&& member_branch(first) == Some(s.branch@)
    &&& strs(s.subpaths@) == sorted_unique(subpaths_of(members, repo))
}

/// `r` is what the members of a project come to: a snapshot per repository,
/// by key, or all that is wrong with them.
pub open spec fn snapshots_of(r: Result<Vec<RepositorySnapshot>, String>, project: Seq<char>, members: Seq<ProjectMember>) -> bool {
    let repos = sorted_unique(resolved_repos(members));
    match r {
        Err(e) => unresolved(members).len() > 0 && e@ == "project "@ + project + " is not ready: "@ + join(
            unresolved(members),
            "; "@,
        ),
        Ok(list) => {
            &&& unresolved(members).len() == 0
            &&& list@.len() == repos.len()
            &&& forall|i: int| 0 <= i < list@.len() ==> snapshot_of(#[trigger] list@[i], members, repos[i])
        },
    }
}

fn is_resolved(member: &ProjectMember) -> (r: bool)
    ensures
        r == resolved(*member),
{
    if !member.code {
        return false;
    }
    match &member.reading {
        Ok(reading) => reading.key_error.is_none() && reading.url.is_some(),
        Err(_) => false,
    }
}

fn branch_of(member: &ProjectMember) -> (r: Option<String>)
    ensures
        opt(r) == member_branch(*member),
{
    match &member.default_branch {
        Some(branch) => Some(branch.clone()),
        None => match &member.reading {
            Ok(reading) => opt_clone(&reading.default_branch),
            Err(_) => None,
        },
    }
}

proof fn lemma_first_of(members: Seq<ProjectMember>, repo: Seq<char>, i: int)
    requires
        0 <= i < members.len(),
        resolved(members[i]),
        members[i].repo@ == repo,
    ensures
        0 <= first_of(members, repo) <= i,
        resolved(members[first_of(members, repo)]),
        members[first_of(members, repo)].repo@ == repo,
    decreases members.len(),
{
    if !(resolved(members[0]) && members[0].repo@ == repo) {
        let rest = members.drop_first();
        assert(rest[i - 1] == members[i]);
        lemma_first_of(rest, repo, i - 1);
        assert(rest[first_of(rest, repo)] == members[first_of(members, repo)]);
    }
}

proof fn lemma_resolved_repos(members: Seq<ProjectMember>, repo: Seq<char>)
    requires
        holds(resolved_repos(members), repo),
    ensures
        exists|i: int| 0 <= i < members.len() && resolved(#[trigger] members[i]) && members[i].repo@ == repo,
    decreases members.len(),
{
    if members.len() > 0 {
        let front = members.drop_last();
        if holds(resolved_repos(front), repo) {
            lemma_resolved_repos(front, repo);
            let i = choose|i: int| 0 <= i < front.len() && resolved(#[trigger] front[i]) && front[i].repo@ == repo;
            assert(members[i] == front[i]);
        } else {
            let all = resolved_repos(members);
            let k = choose|k: int| 0 <= k < all.len() && all[k] == repo;
            assert(k == all.len() - 1) by {
                if k < resolved_repos(front).len() {
                    assert(resolved_repos(front)[k] == repo);
                }
            }
            assert(members[members.len() - 1].repo@ == repo);
        }
    }
}

fn find_first(members: &Vec<ProjectMember>, repo: &str) -> (r: usize)
    requires
        exists|i: int| 0 <= i < members@.len() && resolved(#[trigger] members@[i]) && members@[i].repo@ == repo@,
    ensures
        r == first_of(members@, repo@),
        r < members@.len(),
        resolved(members@[r as int]),
        members@[r as int].repo@ == repo@,
{
    proof {
        let i = choose|i: int| 0 <= i < members@.len() && resolved(#[trigger] members@[i]) && members@[i].repo@ == repo@;
        lemma_first_of(members@, repo@, i);
    }
    let mut i: usize = 0;
    assert(members@.skip(0) =~= members@);
    while !(is_resolved(&members[i]) && str_eq(members[i].repo.as_str(), repo))
        invariant
            i < members@.len(),
            0 <= first_of(members@, repo@) < members@.len(),
            first_of(members@, repo@) == i + first_of(members@.skip(i as int), repo@),
        decreases members.len() - i,
    {
        assert(members@.skip(i as int)[0] == members@[i as int]);
        assert(members@.skip(i as int).drop_first() =~= members@.skip(i + 1));
        proof {
            lemma_first_nonneg(members@.skip(i + 1), repo@);
        }
        i = i + 1;
    }
    assert(members@.skip(i as int)[0] == members@[i as int]);
    i
}

proof fn lemma_first_nonneg(members: Seq<ProjectMember>, repo: Seq<char>)
    ensures
        0 <= first_of(members, repo) <= members.len(),
    decreases members.len(),
{
    if members.len() > 0 && !(resolved(members[0]) && members[0].repo@ == repo) {
        lemma_first_nonneg(members.drop_first(), repo);
    }
}

fn problem_of(members: &Vec<ProjectMember>, i: usize) -> (r: Option<String>)
    requires
        i < members@.len(),
    ensures
        opt(r) == member_problem(members@, i as int),
{
    let member = &members[i];
    if !member.code {
        return None;
    }
    match &member.reading {
        Err(e) => Some(concat4("repository ", member.repo.as_str(), ": ", e.as_str())),
        Ok(reading) => {
            match &reading.key_error {
                Some(e) => {
                    return Some(e.clone());
                },
                None => {},
            }
            if reading.url.is_none() {
                return Some(concat3("repository ", member.repo.as_str(), " has no transport remote"));
            }
            assert(resolved(members@[i as int]));
            let first = find_first(members, member.repo.as_str());
            let a = branch_of(&members[first]);
            let b = branch_of(member);
            if !opt_eq(&a, &b) {
                return Some(concat3("repository ", member.repo.as_str(), " has conflicting project default branches"));
            }
            None
        },
    }
}

fn resolved_names(members: &Vec<ProjectMember>) -> (r: Vec<String>)
    ensures
        strs(r@) == resolved_repos(members@),
{
    let mut r: Vec<String> = Vec::new();
    let mut i: usize = 0;
    assert(strs(r@) =~= resolved_repos(members@.take(0)));
    while i < members.len()
        invariant
            i <= members@.len(),
            strs(r@) == resolved_repos(members@.take(i as int)),
        decreases members.len() - i,
    {
        assert(members@.take(i + 1).drop_last() =~= members@.take(i as int));
        assert(members@.take(i + 1).last() == members@[i as int]);
        if is_resolved(&members[i]) {
            let ghost was = strs(r@);
            r.push(members[i].repo.clone());
            assert(strs(r@) =~= was.push(members@[i as int].repo@));
        }
        i = i + 1;
    }
    assert(members@.take(members@.len() as int) =~= members@);
    r
}

fn subpath_names(members: &Vec<ProjectMember>, repo: &str) -> (r: Vec<String>)
    ensures
        strs(r@) == subpaths_of(members@, repo@),
{
    let mut r: Vec<String> = Vec::new();
    let mut i: usize = 0;
    assert(strs(r@) =~= subpaths_of(members@.take(0), repo@));
    while i < members.len()
        invariant
            i <= members@.len(),
            strs(r@) == subpaths_of(members@.take(i as int), repo@),
        decreases members.len() - i,
    {
        assert(members@.take(i + 1).drop_last() =~= members@.take(i as int));
        assert(members@.take(i + 1).last() == members@[i as int]);
        if is_resolved(&members[i]) && str_eq(members[i].repo.as_str(), repo) {
            match &members[i].subpath {
                Some(subpath) => {
                    let ghost was = strs(r@);
                    r.push(subpath.clone());
                    assert(strs(r@) =~= was.push(subpath@));
                },
                None => {},
            }
        }
        i = i + 1;
    }
    assert(members@.take(members@.len() as int) =~= members@);
    r
}

/// The repositories that a convoy of the project works on.
pub fn project_snapshots(project: &str, members: &Vec<ProjectMember>) -> (r: Result<Vec<RepositorySnapshot>, String>)
    ensures
        snapshots_of(r, project@, members@),
{
    let ghost problems = member_problems(members@);
    let mut wrong: Vec<String> = Vec::new();
    let mut i: usize = 0;
    assert(strs(wrong@) =~= present(problems.take(0)));
    while i < members.len()
        invariant
            i <= members@.len(),
            problems == member_problems(members@),
            strs(wrong@) == present(problems.take(i as int)),
        decreases members.len() - i,
    {
        assert(problems.take(i + 1).drop_last() =~= problems.take(i as int));
        assert(problems.take(i + 1).last() == member_problem(members@, i as int));
        match problem_of(members, i) {
            Some(problem) => {
                let ghost was = strs(wrong@);
                wrong.push(problem);
                assert(strs(wrong@) =~= was.push(problem@));
            },
            None => {},
        }
        i = i + 1;
    }
    assert(problems.take(problems.len() as int) =~= problems);
    let all = resolved_names(members);
    let repos = sort_dedup(&all);
    let ghost names = strs(repos@);
    proof {
        crate::ordered::lemma_sorted_unique(names, resolved_repos(members@));
    }
    let ghost head = strs(wrong@);
    let mut k: usize = 0;
    assert(strs(wrong@) =~= head + branchless(members@, names.take(0)));
    while k < repos.len()
        invariant
            k <= repos@.len(),
            names == strs(repos@),
            crate::ordered::sorted_set_of(names, resolved_repos(members@)),
            strs(wrong@) == head + branchless(members@, names.take(k as int)),
        decreases repos.len() - k,
    {
        assert(names.take(k + 1).drop_last() =~= names.take(k as int));
        assert(names.take(k + 1).last() == repos@[k as int]@);
        let repo = repos[k].as_str();
        proof {
            assert(names[k as int] == repo@);
            assert(holds(names, repo@));
            lemma_resolved_repos(members@, repo@);
        }
        let first = find_first(members, repo);
        let branch = branch_of(&members[first]);
        if branch.is_none() {
            let ghost was = strs(wrong@);
            let text = concat3("repository ", repo, " has no resolved default branch");
            wrong.push(text);
            assert(strs(wrong@) =~= was.push(text@));
            assert(strs(wrong@) =~= head + branchless(members@, names.take(k + 1)));
        }
        k = k + 1;
    }
    assert(names.take(names.len() as int) =~= names);
    assert(strs(wrong@) == unresolved(members@));
    assert(strs(wrong@).len() == wrong@.len());
    if wrong.len() > 0 {
        let joined = join_strs(&wrong, "; ");
        return Err(concat4("project ", project, " is not ready: ", joined.as_str()));
    }
    let mut list: Vec<RepositorySnapshot> = Vec::new();
    let mut j: usize = 0;
    while j < repos.len()
        invariant
            j <= repos@.len(),
            names == strs(repos@),
            unresolved(members@).len() == 0,
            names == sorted_unique(resolved_repos(members@)),
            crate::ordered::sorted_set_of(names, resolved_repos(members@)),
            list@.len() == j,
            forall|x: int| 0 <= x < j ==> snapshot_of(#[trigger] list@[x], members@, names[x]),
        decreases repos.len() - j,
    {
        let repo = repos[j].as_str();
        proof {
            assert(names[j as int] == repo@);
            assert(holds(names, repo@));
            lemma_resolved_repos(members@, repo@);
            lemma_branchless(members@, names, j as int);
        }
        let first = find_first(members, repo);
        let branch = match branch_of(&members[first]) {
            Some(branch) => branch,
            None => "".to_owned(),
        };
        let url = match &members[first].reading {
            Ok(reading) => match &reading.url {
                Some(url) => url.clone(),
                None => "".to_owned(),
            },
            Err(_) => "".to_owned(),
        };
        let subpaths = subpath_names(members, repo);
        list.push(
            RepositorySnapshot { repo_ref: repo.to_owned(), url, branch, subpaths: sort_dedup(&subpaths) },
        );
        j = j + 1;
    }
    Ok(list)
}

proof fn lemma_branchless(members: Seq<ProjectMember>, repos: Seq<Seq<char>>, i: int)
    requires
        branchless(members, repos).len() == 0,
        0 <= i < repos.len(),
    ensures
        member_branch(members[first_of(members, repos[i])]) is Some,
    decreases repos.len(),
{
    if i < repos.len() - 1 {
        lemma_branchless(members, repos.drop_last(), i);
    }
}

/// A repository as a convoy carries it.
#[derive(Debug, PartialEq, Eq)]
pub struct ConvoyRepository {
    pub url: String,
    pub repo_ref: String,
    pub source_ref: String,
    pub target_ref: String,
    pub workspace_slug: String,
    pub subpaths: Vec<String>,
}

pub struct RepositoryView {
    pub url: Seq<char>,
    pub repo_ref: Seq<char>,
    pub source_ref: Seq<char>,
    pub target_ref: Seq<char>,
    pub workspace_slug: Seq<char>,
    pub subpaths: Seq<Seq<char>>,
}

impl View for ConvoyRepository {
    type V = RepositoryView;

    open spec fn view(&self) -> RepositoryView {
        RepositoryView {
            url: self.url@,
            repo_ref: self.repo_ref@,
            source_ref: self.source_ref@,
            target_ref: self.target_ref@,
            workspace_slug: self.workspace_slug@,
            subpaths: strs(self.subpaths@),
        }
    }
}

/// The views of repositories.
pub open spec fn repository_views(list: Seq<ConvoyRepository>) -> Seq<RepositoryView> {
    Seq::new(list.len(), |i: int| list[i]@)
}

impl ConvoyRepository {
    pub fn copy(&self) -> (r: Self)
        ensures
            r@ == self@,
    {
        ConvoyRepository {
            url: self.url.clone(),
            repo_ref: self.repo_ref.clone(),
            source_ref: self.source_ref.clone(),
            target_ref: self.target_ref.clone(),
            workspace_slug: self.workspace_slug.clone(),
            subpaths: strs_clone(&self.subpaths),
        }
    }
}

impl Ranked for ConvoyRepository {
    open spec fn ranks_before(self, other: Self) -> bool {
        lex_lt(self.workspace_slug@, other.workspace_slug@) || (self.workspace_slug@ == other.workspace_slug@ && lex_le(
            self.repo_ref@,
            other.repo_ref@,
        ))
    }

    proof fn ranks_total(a: Self, b: Self) {
        lemma_lex_total(a.workspace_slug@, b.workspace_slug@);
        lemma_lex_total(a.repo_ref@, b.repo_ref@);
        if lex_lt(a.repo_ref@, b.repo_ref@) {
            lemma_lex_asymmetric(a.repo_ref@, b.repo_ref@);
        }
    }

    proof fn ranks_transitive(a: Self, b: Self, c: Self) {
        if lex_lt(a.workspace_slug@, b.workspace_slug@) && lex_lt(b.workspace_slug@, c.workspace_slug@) {
            lemma_lex_transitive(a.workspace_slug@, b.workspace_slug@, c.workspace_slug@);
        }
        lemma_lex_total(b.repo_ref@, a.repo_ref@);
        lemma_lex_total(c.repo_ref@, b.repo_ref@);
        if lex_lt(c.repo_ref@, a.repo_ref@) && lex_lt(a.repo_ref@, b.repo_ref@) {
            lemma_lex_transitive(c.repo_ref@, a.repo_ref@, b.repo_ref@);
        }
    }

    fn rank_before(&self, other: &Self) -> (r: bool) {
        str_lt(self.workspace_slug.as_str(), other.workspace_slug.as_str()) || (str_eq(
            self.workspace_slug.as_str(),
            other.workspace_slug.as_str(),
        ) && !str_lt(other.repo_ref.as_str(), self.repo_ref.as_str()))
    }
}

/// `c` is a snapshot under its workspace slug.
pub open spec fn convoy_repository_of(c: ConvoyRepository, s: RepositorySnapshot, slug: Seq<char>) -> bool {
    &&& c.url == s.url
    &&& c.repo_ref == s.repo_ref
    &&& c.source_ref == s.branch
    &&& c.target_ref == s.branch
    &&& c.workspace_slug@ == slug
    &&& c.subpaths@ == s.subpaths@
}

pub open spec fn convoy_repositories_of(list: Seq<ConvoyRepository>, snapshots: Seq<RepositorySnapshot>, slugs: Seq<String>) -> bool {
    &&& list.len() == snapshots.len()
    &&& forall|i: int|
        0 <= i < list.len() ==> convoy_repository_of(#[trigger] list[i], snapshots[i], slugs[i]@)
}

/// The repositories of a convoy, by workspace slug.
pub fn snapshot_project_repositories(snapshots: &Vec<RepositorySnapshot>, slugs: &Vec<String>) -> (r: Vec<ConvoyRepository>)
    requires
        slugs@.len() == snapshots@.len(),
    ensures
        exists|list: Seq<ConvoyRepository>|
            #[trigger] convoy_repositories_of(list, snapshots@, slugs@) && r@ == rank_sort(list),
{
    let mut list: Vec<ConvoyRepository> = Vec::new();
    let mut i: usize = 0;
    while i < snapshots.len()
        invariant
            i <= snapshots@.len(),
            slugs@.len() == snapshots@.len(),
            list@.len() == i,
            forall|k: int|
                0 <= k < i ==> convoy_repository_of(#[trigger] list@[k], snapshots@[k], slugs@[k]@),
        decreases snapshots.len() - i,
    {
        let s = &snapshots[i];
        list.push(
            ConvoyRepository {
                url: s.url.clone(),
                repo_ref: s.repo_ref.clone(),
                source_ref: s.branch.clone(),
                target_ref: s.branch.clone(),
                workspace_slug: slugs[i].clone(),
                subpaths: strs_clone(&s.subpaths),
            },
        );
        i = i + 1;
    }
    assert(convoy_repositories_of(list@, snapshots@, slugs@));
    sort_ranked(list)
}

/// The repository path that a bootstrap target means.
pub open spec fn bootstrap_target(
    target: Seq<char>,
    exists_here: bool,
    matches: int,
    checkouts: Seq<LocalCheckout>,
) -> Result<Seq<char>, Seq<char>> {
    if exists_here {
        Ok(target)
    } else if matches == 0 {
        Err("`"@ + target + "` is neither a bootstrap repository path nor a repository catalog slug"@)
    } else if matches > 1 {
        Err("bootstrap repository slug `"@ + target + "` is ambiguous"@)
    } else if checkouts.len() == 0 {
        Err("bootstrap repository `"@ + target + "` has no local checkout on this host"@)
    } else {
        match checkout_choice(checkouts) {
            Some(i) => Ok(checkouts[i].path@),
            None => Err(
                "bootstrap repository `"@ + target
                    + "` has multiple local checkouts; pass the intended checkout path explicitly"@,
            ),
        }
    }
}

/// Where the project that is being registered is declared. `matches` counts
/// the catalogued repositories that the target names, and `checkouts` are the
/// local ones of the only such repository.
pub fn project_register_path(
    target: &str,
    exists_here: bool,
    matches: usize,
    checkouts: &Vec<LocalCheckout>,
) -> (r: Result<String, String>)
    ensures
        match r {
            Ok(path) => bootstrap_target(target@, exists_here, matches as int, checkouts@) == Ok::<
                Seq<char>,
                Seq<char>,
            >(path@),
            Err(e) => bootstrap_target(target@, exists_here, matches as int, checkouts@) == Err::<
                Seq<char>,
                Seq<char>,
            >(e@),
        },
{
    if exists_here {
        return Ok(target.to_owned());
    }
    if matches == 0 {
        return Err(concat3("`", target, "` is neither a bootstrap repository path nor a repository catalog slug"));
    }
    if matches > 1 {
        return Err(concat3("bootstrap repository slug `", target, "` is ambiguous"));
    }
    if checkouts.len() == 0 {
        return Err(concat3("bootstrap repository `", target, "` has no local checkout on this host"));
    }
    match choose_checkout(checkouts) {
        Some(i) => Ok(checkouts[i].path.clone()),
        None => Err(
            concat3(
                "bootstrap repository `",
                target,
                "` has multiple local checkouts; pass the intended checkout path explicitly",
            ),
        ),
    }
}

/// Where a project that is being refreshed is declared.
pub open spec fn refresh_source(name: Seq<char>, bootstrap_path: Option<Seq<char>>) -> Result<Seq<char>, Seq<char>> {
    match checked_project_name(name) {
        Err(e) => Err(e),
        Ok(()) => match bootstrap_path {
            Some(path) => Ok(path),
            None => Err("project "@ + name + " was registered without a declaration"@),
        },
    }
}

pub fn project_refresh_source(name: &str, bootstrap_path: &Option<String>) -> (r: Result<String, String>)
    ensures
        match r {
            Ok(path) => refresh_source(name@, opt(*bootstrap_path)) == Ok::<Seq<char>, Seq<char>>(path@),
            Err(e) => refresh_source(name@, opt(*bootstrap_path)) == Err::<Seq<char>, Seq<char>>(e@),
        },
{
    match validate_project_name(name) {
        Err(e) => {
            return Err(e);
        },
        Ok(()) => {},
    }
    match bootstrap_path {
        Some(path) => Ok(path.clone()),
        None => Err(concat3("project ", name, " was registered without a declaration")),
    }
}

/// A declaration must keep declaring the project it is refreshed for.
pub fn project_refresh_check(name: &str, file: &str, declared: &str) -> (r: Result<(), String>)
    ensures
        match r {
            Ok(()) => declared@ == name@,
            Err(e) => declared@ != name@ && e@ == file@ + " now declares project `"@ + declared@ + "` instead of `"@ + name@
                + "`"@,
        },
{
    if str_eq(declared, name) {
        Ok(())
    } else {
        Err(concat6(file, " now declares project `", declared, "` instead of `", name, "`"))
    }
}

/// Annotations with others written over them.
pub open spec fn overlaid(base: Map<Seq<char>, Seq<char>>, over: Map<Seq<char>, Seq<char>>) -> Map<Seq<char>, Seq<char>> {
    base.union_prefer_right(over)
}

/// The first `n` entries of a map, by key.
spec fn first_texts(m: OrderedMap<String>, n: int) -> Map<Seq<char>, Seq<char>>
    decreases n,
{
    if n <= 0 {
        Map::empty()
    } else {
        first_texts(m, n - 1).insert(m.keys()[n - 1], text_map(m@)[m.keys()[n - 1]])
    }
}

proof fn lemma_first_texts(m: OrderedMap<String>, n: int)
    requires
        0 <= n <= m.keys().len(),
        forall|i: int| 0 <= i < m.keys().len() ==> m@.dom().contains(#[trigger] m.keys()[i]),
    ensures
        forall|i: int| 0 <= i < n ==> first_texts(m, n).dom().contains(#[trigger] m.keys()[i]),
        forall|k: Seq<char>| #[trigger]
            first_texts(m, n).dom().contains(k) ==> text_map(m@).dom().contains(k) && first_texts(m, n)[k] == text_map(
                m@,
            )[k],
    decreases n,
{
    if n > 0 {
        lemma_first_texts(m, n - 1);
        let last = m.keys()[n - 1];
        assert(m@.dom().contains(last));
        assert(text_map(m@).dom() =~= m@.dom());
        assert forall|k: Seq<char>| #[trigger] first_texts(m, n).dom().contains(k) implies text_map(m@).dom().contains(
            k,
        ) && first_texts(m, n)[k] == text_map(m@)[k] by {
            if k != last {
                assert(first_texts(m, n - 1).dom().contains(k));
            }
        }
    }
}

fn overlay(m: &mut OrderedMap<String>, over: &OrderedMap<String>)
    ensures
        text_map(final(m)@) == overlaid(text_map(old(m)@), text_map(over@)),
{
    let ghost start = text_map(m@);
    let n: usize = over.len();
    let mut i: usize = 0;
    assert(text_map(m@) =~= overlaid(start, first_texts(*over, 0)));
    while i < n
        invariant
            i <= n,
            n == over.keys().len(),
            start == text_map(old(m)@),
            text_map(m@) == overlaid(start, first_texts(*over, i as int)),
        decreases n - i,
    {
        let key = over.key(i);
        let value = over.value(i);
        let ghost before = m@;
        m.insert(key.clone(), value.clone());
        assert(text_map(m@) =~= text_map(before).insert(key@, value@));
        assert(text_map(over@)[key@] == value@);
        assert(text_map(m@) =~= overlaid(start, first_texts(*over, i + 1)));
        i = i + 1;
    }
    let _n: usize = over.len();
    proof {
        lemma_first_texts(*over, n as int);
        assert forall|k: Seq<char>| text_map(over@).dom().contains(k) implies first_texts(*over, n as int).dom().contains(
            k,
        ) by {
            assert(holds(over.keys(), k));
            let x = choose|x: int| 0 <= x < over.keys().len() && over.keys()[x] == k;
            assert(first_texts(*over, n as int).dom().contains(over.keys()[x]));
        }
        assert(first_texts(*over, n as int) =~= text_map(over@));
    }
}

/// Writes annotations over others, and says whether that changed anything.
pub fn with_provenance(base: &OrderedMap<String>, over: &OrderedMap<String>) -> (r: (OrderedMap<String>, bool))
    ensures
        text_map(r.0@) == overlaid(text_map(base@), text_map(over@)),
        r.1 == (text_map(r.0@) != text_map(base@)),
{
    let mut m: OrderedMap<String> = OrderedMap::new();
    assert(text_map(m@) =~= Map::<Seq<char>, Seq<char>>::empty());
    overlay(&mut m, base);
    assert(text_map(m@) =~= text_map(base@));
    overlay(&mut m, over);
    let same = same_texts(&m, base);
    (m, !same)
}

/// Writing the same annotations again changes nothing.
pub proof fn law_provenance_is_idempotent(base: Map<Seq<char>, Seq<char>>, over: Map<Seq<char>, Seq<char>>)
    ensures
        overlaid(overlaid(base, over), over) == overlaid(base, over),
{
    assert(overlaid(overlaid(base, over), over) =~= overlaid(base, over));
}

/// Whether a declaration is materialised here: a project that exists is
/// written at its home alone.
pub fn materializes_here(existing: bool, locally_homed: bool) -> (r: bool)
    ensures
        r == !(existing && !locally_homed),
{
    !existing || locally_homed
}

/// What came of looking for the record of a registered project at its root.
#[derive(Debug, PartialEq, Eq)]
pub enum RegisteredReading {
    Found { members: usize },
    Missing,
    Failed { error: String },
}

/// How many members a registered project has. Only the home of a project can
/// register it.
pub fn registered_members(name: &str, found: &RegisteredReading) -> (r: Result<usize, String>)
    ensures
        match *found {
            RegisteredReading::Found { members } => r == Ok::<usize, String>(members),
            RegisteredReading::Missing => r matches Err(e) && e@ == "project "@ + name@
                + " is homed by another root; register it at its home"@,
            RegisteredReading::Failed { error } => r matches Err(e) && e@ == error@,
        },
{
    match found {
        RegisteredReading::Found { members } => Ok(*members),
        RegisteredReading::Missing => Err(concat3("project ", name, " is homed by another root; register it at its home")),
        RegisteredReading::Failed { error } => Err(error.clone()),
    }
}

/// What is done for the repository of a declared member.
#[derive(Debug, PartialEq, Eq)]
pub enum MemberStep {
    /// The declared repository is written where it is missing.
    Ensure { key: String },
    /// The alias stands for another repository, which must be there.
    Get { key: String },
    /// The provenance of the declaration is written to the repository.
    Mark { key: String },
    /// The repository's key is held against its remotes.
    Verify { key: String },
    Refuse { message: String },
    /// The member is the repository with this key.
    Settled { key: String },
}

/// The readings of a declared member's repository.
#[derive(Default, Debug)]
pub struct MemberReading {
    /// The repository, written or found.
    pub repository: Option<Result<(), String>>,
    pub marked: Option<Result<(), String>>,
    /// Whether the repository that is there has its own key.
    pub verified: Option<Result<(), String>>,
}

/// The key that a declared member's alias stands for.
pub open spec fn alias_key(alias: Seq<char>, aliases: Map<Seq<char>, String>, declared_key: Seq<char>) -> Seq<char> {
    if aliases.dom().contains(alias) {
        aliases[alias]@
    } else {
        declared_key
    }
}

/// `step` is what comes next for a declared member.
pub open spec fn member_decided(step: MemberStep, alias: Seq<char>, key: Seq<char>, declared_key: Seq<char>, reading: MemberReading) -> bool {
    let refused = |e: Seq<char>| step matches MemberStep::Refuse { message } && message@ == e;
    match reading.repository {
        None => if key == declared_key {
            step matches MemberStep::Ensure { key: k } && k@ == key
        } else {
            step matches MemberStep::Get { key: k } && k@ == key
        },
        Some(Err(e)) => if key == declared_key {
            refused(e@)
        } else {
            refused("project member alias `"@ + alias + "` refers to unavailable repository "@ + key + ": "@ + e@)
        },
        Some(Ok(_)) => match reading.marked {
            None => step matches MemberStep::Mark { key: k } && k@ == key,
            Some(Err(e)) => refused(e@),
            Some(Ok(_)) => match reading.verified {
                None => step matches MemberStep::Verify { key: k } && k@ == key,
                Some(Err(e)) => refused(
                    "project member alias `"@ + alias + "` resolved to invalid repository "@ + key + ": "@ + e@,
                ),
                Some(Ok(_)) => step matches MemberStep::Settled { key: k } && k@ == key,
            },
        },
    }
}

/// Decides what comes next for the repository of a declared member: the one
/// its alias stood for before, else the declared one.
pub fn declared_member_step(
    alias: &str,
    aliases: &OrderedMap<String>,
    declared_key: &str,
    reading: &MemberReading,
) -> (step: MemberStep)
    ensures
        member_decided(step, alias@, alias_key(alias@, aliases@, declared_key@), declared_key@, *reading),
{
    let key = match aliases.get(alias) {
        Some(key) => key.clone(),
        None => declared_key.to_owned(),
    };
    let own = str_eq(key.as_str(), declared_key);
    match &reading.repository {
        None => if own {
            MemberStep::Ensure { key }
        } else {
            MemberStep::Get { key }
        },
        Some(Err(e)) => if own {
            MemberStep::Refuse { message: e.clone() }
        } else {
            MemberStep::Refuse {
                message: concat6(
                    "project member alias `",
                    alias,
                    "` refers to unavailable repository ",
                    key.as_str(),
                    ": ",
                    e.as_str(),
                ),
            }
        },
        Some(Ok(_)) => match &reading.marked {
            None => MemberStep::Mark { key },
            Some(Err(e)) => MemberStep::Refuse { message: e.clone() },
            Some(Ok(_)) => match &reading.verified {
                None => MemberStep::Verify { key },
                Some(Err(e)) => MemberStep::Refuse {
                    message: concat6(
                        "project member alias `",
                        alias,
                        "` resolved to invalid repository ",
                        key.as_str(),
                        ": ",
                        e.as_str(),
                    ),
                },
                Some(Ok(_)) => MemberStep::Settled { key },
            },
        },
    }
}

/// What a declaration's materialisation is to report first.
pub fn declaration_changes(name: &str, members_converged: bool, existing: bool, same_spec: bool, same_annotations: bool) -> (r: Vec<String>)
    ensures
        if members_converged || !existing || !same_spec || !same_annotations {
            r@.len() == 1 && r@[0]@ == "Project/"@ + name@
        } else {
            r@.len() == 0
        },
{
    let mut r: Vec<String> = Vec::new();
    if members_converged || !existing || !same_spec || !same_annotations {
        r.push(concat2("Project/", name));
    }
    r
}

} // verus!
