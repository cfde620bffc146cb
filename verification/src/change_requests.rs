//! Which change request, and which issue, a convoy is about.
use vstd::prelude::*;

use crate::admission::IssueSelector;
use crate::repos::RepoRegistry;
use crate::text::{concat2, concat3, concat4, concat5, concat6, decimal, decimal_str, holds, join, join_strs, opt, str_eq, strs, strs_hold};

verus! {

/// A tracked path of a repository, as a search for change requests sees it.
#[derive(Debug, PartialEq, Eq)]
pub struct RootReading {
    pub key: Option<String>,
    /// Whether anything there can be asked for change requests.
    pub has_providers: bool,
}

/// Whether a path is of one of the repositories and can be asked.
pub open spec fn askable(root: RootReading, keys: Seq<Seq<char>>) -> bool {
    root.has_providers && root.key is Some && holds(keys, root.key->0@)
}

/// Whether a path among some is of the repository.
pub open spec fn listed(roots: Seq<RootReading>, at: Seq<int>, key: Seq<char>) -> bool {
    exists|i: int| 0 <= i < at.len() && opt((#[trigger] roots[at[i]]).key) == Some(key)
}

/// The path of each repository that is asked: the first that can be.
pub open spec fn asked(roots: Seq<RootReading>, keys: Seq<Seq<char>>, n: int) -> Seq<int>
    decreases n,
{
    if n <= 0 {
        Seq::empty()
    } else {
        let before = asked(roots, keys, n - 1);
        if askable(roots[n - 1], keys) && !listed(roots, before, roots[n - 1].key->0@) {
            before.push(n - 1)
        } else {
            before
        }
    }
}

/// The paths, in order, that are asked for a change request.
pub fn admission_candidates(roots: &Vec<RootReading>, keys: &Vec<String>) -> (r: Vec<usize>)
    ensures
        crate::address::ints(r@) == asked(roots@, strs(keys@), roots@.len() as int),
{
    let mut r: Vec<usize> = Vec::new();
    let mut i: usize = 0;
    assert(crate::address::ints(r@) =~= asked(roots@, strs(keys@), 0));
    while i < roots.len()
        invariant
            i <= roots@.len(),
            crate::address::ints(r@) == asked(roots@, strs(keys@), i as int),
            forall|k: int| 0 <= k < r@.len() ==> #[trigger] r@[k] < i,
        decreases roots.len() - i,
    {
        let ghost at = crate::address::ints(r@);
        if roots[i].has_providers {
            match &roots[i].key {
                Some(key) => {
                    if strs_hold(keys, key.as_str()) {
                        let mut seen = false;
                        let mut k: usize = 0;
                        while k < r.len()
                            invariant
                                k <= r@.len(),
                                i < roots@.len(),
                                at == crate::address::ints(r@),
                                forall|x: int| 0 <= x < r@.len() ==> #[trigger] r@[x] < i,
                                seen == exists|x: int|
                                    0 <= x < k && opt((#[trigger] roots@[at[x]]).key) == Some(key@),
                            decreases r.len() - k,
                        {
                            assert(at[k as int] == r@[k as int]);
                            let same = match &roots[r[k]].key {
                                Some(other) => str_eq(other.as_str(), key.as_str()),
                                None => false,
                            };
                            if same {
                                assert(opt(roots@[at[k as int]].key) == Some(key@));
                                seen = true;
                            }
                            k = k + 1;
                        }
                        if !seen {
                            r.push(i);
                            assert(crate::address::ints(r@) =~= at.push(i as int));
                        }
                    }
                },
                None => {},
            }
        }
        i = i + 1;
    }
    r
}

/// A change request as a provider describes it.
#[derive(Debug, PartialEq, Eq)]
pub struct DescribedRequest {
    pub id: String,
    pub title: String,
    pub branch: String,
    pub base_ref: Option<String>,
}

/// A repository, and what its providers answer.
#[derive(Debug, PartialEq, Eq)]
pub struct RequestCandidate {
    pub repository: String,
    pub replies: Vec<Result<DescribedRequest, String>>,
}

/// Whether an answer settles the search in its repository.
pub open spec fn settles(reply: Result<DescribedRequest, String>) -> bool {
    reply matches Ok(request) && request.base_ref is Some
}

/// The first answer that settles the search, or the number of answers.
pub open spec fn settled_at(replies: Seq<Result<DescribedRequest, String>>) -> int
    decreases replies.len(),
{
    if replies.len() == 0 || settles(replies[0]) {
        0
    } else {
        1 + settled_at(replies.drop_first())
    }
}

/// What an answer that does not settle the search says.
pub open spec fn failure_text(repository: Seq<char>, reply: Result<DescribedRequest, String>) -> Seq<char> {
    match reply {
        Err(e) => "repository "@ + repository + ": "@ + e@,
        Ok(request) => "repository "@ + repository + ": change request "@ + request.id@ + " did not report a base ref"@,
    }
}

/// What the answers before the one that settles say.
pub open spec fn candidate_failures(candidate: RequestCandidate) -> Seq<Seq<char>> {
    Seq::new(
        settled_at(candidate.replies@) as nat,
        |i: int| failure_text(candidate.repository@, candidate.replies@[i]),
    )
}

pub open spec fn all_failures(candidates: Seq<RequestCandidate>) -> Seq<Seq<char>>
    decreases candidates.len(),
{
    if candidates.len() == 0 {
        Seq::empty()
    } else {
        all_failures(candidates.drop_last()) + candidate_failures(candidates.last())
    }
}

/// The repositories in which the change request was found.
pub open spec fn found_in(candidates: Seq<RequestCandidate>) -> Seq<int>
    decreases candidates.len(),
{
    if candidates.len() == 0 {
        Seq::empty()
    } else if settled_at(candidates.last().replies@) < candidates.last().replies@.len() {
        found_in(candidates.drop_last()).push(candidates.len() - 1)
    } else {
        found_in(candidates.drop_last())
    }
}

/// A change request that a convoy is bound to.
#[derive(Debug, PartialEq, Eq)]
pub struct ResolvedRequest {
    pub id: String,
    pub repository_ref: String,
    pub title: String,
    pub branch: String,
    pub base_ref: String,
}

/// `r` is the request that a candidate answered with.
pub open spec fn resolved_request(r: ResolvedRequest, candidate: RequestCandidate) -> bool {
    &&& settled_at(candidate.replies@) < candidate.replies@.len()
    &&& (candidate.replies@[settled_at(candidate.replies@)] matches Ok(request) && r.id@ == request.id@ && r.title@
        == request.title@ && r.branch@ == request.branch@ && opt(request.base_ref) == Some(r.base_ref@))
    &&& r.repository_ref@ == candidate.repository@
}

/// `r` is what the search comes to.
pub open spec fn request_resolution(r: Result<ResolvedRequest, String>, requested: Seq<char>, candidates: Seq<RequestCandidate>) -> bool {
    let found = found_in(candidates);
    let failures = all_failures(candidates);
    if found.len() == 1 {
        r matches Ok(x) && resolved_request(x, candidates[found[0]])
    } else if found.len() == 0 {
        r matches Err(e) && e@ == "change request "@ + requested + " was not found in project repositories"@ + (
        if failures.len() == 0 {
            ""@
        } else {
            ": "@ + join(failures, "; "@)
        })
    } else {
        r matches Err(e) && e@ == "change request "@ + requested + " is ambiguous across "@ + decimal(found.len())
            + " project repositories"@
    }
}

proof fn lemma_settled_at(replies: Seq<Result<DescribedRequest, String>>, n: int)
    requires
        0 <= n <= replies.len(),
        forall|i: int| 0 <= i < n ==> !settles(#[trigger] replies[i]),
        n < replies.len() ==> settles(replies[n]),
    ensures
        settled_at(replies) == n,
    decreases replies.len(),
{
    if n > 0 {
        let rest = replies.drop_first();
        assert(!settles(replies[0]));
        assert forall|i: int| 0 <= i < n - 1 implies !settles(#[trigger] rest[i]) by {
            assert(rest[i] == replies[i + 1]);
        }
        if n < replies.len() {
            assert(rest[n - 1] == replies[n]);
        }
        lemma_settled_at(rest, n - 1);
    }
}

fn ask_candidate(candidate: &RequestCandidate, failures: &mut Vec<String>) -> (r: Option<ResolvedRequest>)
    ensures
        strs(final(failures)@) == strs(old(failures)@) + candidate_failures(*candidate),
        match r {
            Some(x) => resolved_request(x, *candidate),
            None => settled_at(candidate.replies@) == candidate.replies@.len(),
        },
{
    let ghost start = strs(failures@);
    let replies = &candidate.replies;
    let ghost texts = Seq::new(replies@.len(), |i: int| failure_text(candidate.repository@, replies@[i]));
    let mut i: usize = 0;
    assert(strs(failures@) =~= start + texts.take(0));
    while i < replies.len()
        invariant
            i <= replies@.len(),
            *replies == candidate.replies,
            start == strs(old(failures)@),
            texts == Seq::new(replies@.len(), |i: int| failure_text(candidate.repository@, replies@[i])),
            strs(failures@) == start + texts.take(i as int),
            forall|k: int| 0 <= k < i ==> !settles(#[trigger] replies@[k]),
        decreases replies.len() - i,
    {
        let ghost was = strs(failures@);
        let text = match &replies[i] {
            Ok(request) => match &request.base_ref {
                Some(base_ref) => {
                    proof {
                        lemma_settled_at(replies@, i as int);
                        assert(texts.take(i as int) =~= candidate_failures(*candidate));
                    }
                    return Some(
                        ResolvedRequest {
                            id: request.id.clone(),
                            repository_ref: candidate.repository.clone(),
                            title: request.title.clone(),
                            branch: request.branch.clone(),
                            base_ref: base_ref.clone(),
                        },
                    );
                },
                None => concat5(
                    "repository ",
                    candidate.repository.as_str(),
                    ": change request ",
                    request.id.as_str(),
                    " did not report a base ref",
                ),
            },
            Err(e) => concat4("repository ", candidate.repository.as_str(), ": ", e.as_str()),
        };
        failures.push(text);
        assert(strs(failures@) =~= was.push(text@));
        assert(texts[i as int] == text@);
        assert(strs(failures@) =~= start + texts.take(i + 1));
        i = i + 1;
    }
    proof {
        lemma_settled_at(replies@, replies@.len() as int);
        assert(texts.take(replies@.len() as int) =~= candidate_failures(*candidate));
    }
    None
}

/// Finds the only change request of an id across the repositories of a
/// project.
pub fn resolve_convoy_change_request_admission(requested_id: &str, candidates: &Vec<RequestCandidate>) -> (r: Result<
    ResolvedRequest,
    String,
>)
    ensures
        request_resolution(r, requested_id@, candidates@),
{
    let mut failures: Vec<String> = Vec::new();
    let mut first: Option<ResolvedRequest> = None;
    let mut count: usize = 0;
    let mut i: usize = 0;
    assert(strs(failures@) =~= all_failures(candidates@.take(0)));
    while i < candidates.len()
        invariant
            i <= candidates@.len(),
            strs(failures@) == all_failures(candidates@.take(i as int)),
            count == found_in(candidates@.take(i as int)).len(),
            count <= i,
            match first {
                Some(x) => count > 0 && 0 <= found_in(candidates@.take(i as int))[0] < i && resolved_request(
                    x,
                    candidates@[found_in(candidates@.take(i as int))[0]],
                ),
                None => count == 0,
            },
        decreases candidates.len() - i,
    {
        assert(candidates@.take(i + 1).drop_last() =~= candidates@.take(i as int));
        assert(candidates@.take(i + 1).last() == candidates@[i as int]);
        match ask_candidate(&candidates[i], &mut failures) {
            Some(found) => {
                if first.is_none() {
                    first = Some(found);
                }
                count = count + 1;
            },
            None => {},
        }
        i = i + 1;
    }
    assert(candidates@.take(candidates@.len() as int) =~= candidates@);
    match first {
        None => {
            assert(strs(failures@).len() == failures@.len());
            let detail = if failures.len() == 0 {
                "".to_owned()
            } else {
                let joined = join_strs(&failures, "; ");
                concat2(": ", joined.as_str())
            };
            Err(
                concat4(
                    "change request ",
                    requested_id,
                    " was not found in project repositories",
                    detail.as_str(),
                ),
            )
        },
        Some(found) => {
            if count == 1 {
                Ok(found)
            } else {
                let n = decimal_str(count as u64);
                Err(
                    concat5(
                        "change request ",
                        requested_id,
                        " is ambiguous across ",
                        n.as_str(),
                        " project repositories",
                    ),
                )
            }
        },
    }
}

/// The repository of a tracked one's first path that is asked about.
pub open spec fn repo_of(roots: Seq<RootReading>, keys: Seq<Seq<char>>) -> Option<Seq<char>>
    decreases roots.len(),
{
    if roots.len() == 0 {
        None
    } else if roots[0].key is Some && holds(keys, roots[0].key->0@) {
        Some(roots[0].key->0@)
    } else {
        repo_of(roots.drop_first(), keys)
    }
}

/// The first path of the repository that can be asked, or the number of paths.
pub open spec fn provider_root(roots: Seq<RootReading>, key: Seq<char>) -> int
    decreases roots.len(),
{
    if roots.len() == 0 || (opt(roots[0].key) == Some(key) && roots[0].has_providers) {
        0
    } else {
        1 + provider_root(roots.drop_first(), key)
    }
}

/// Where a repository is asked: in the first tracked one that goes by it and
/// has a path that can be asked.
pub open spec fn live_root(repos: Seq<Vec<RootReading>>, keys: Seq<Seq<char>>, key: Seq<char>) -> Option<(int, int)>
    decreases repos.len(),
{
    if repos.len() == 0 {
        None
    } else {
        match live_root(repos.drop_last(), keys, key) {
            Some(at) => Some(at),
            None => {
                let roots = repos.last()@;
                if repo_of(roots, keys) == Some(key) && provider_root(roots, key) < roots.len() {
                    Some((repos.len() - 1, provider_root(roots, key)))
                } else {
                    None
                }
            },
        }
    }
}

/// Where a repository is asked.
#[derive(Debug, Clone, Copy, PartialEq, Eq, Structural)]
pub struct LiveRoot {
    /// Which of the wanted repositories.
    pub key: usize,
    pub repo: usize,
    pub root: usize,
}

/// The repositories that are asked, in the order they are wanted, with where.
pub open spec fn live_roots(repos: Seq<Vec<RootReading>>, keys: Seq<Seq<char>>, n: int) -> Seq<(int, int, int)>
    decreases n,
{
    if n <= 0 {
        Seq::empty()
    } else {
        let before = live_roots(repos, keys, n - 1);
        if holds(keys.take(n - 1), keys[n - 1]) {
            before
        } else {
            match live_root(repos, keys, keys[n - 1]) {
                Some((repo, root)) => before.push((n - 1, repo, root)),
                None => before,
            }
        }
    }
}

/// The places, by value.
pub open spec fn places(v: Seq<LiveRoot>) -> Seq<(int, int, int)> {
    Seq::new(v.len(), |i: int| (v[i].key as int, v[i].repo as int, v[i].root as int))
}

proof fn lemma_provider_root(roots: Seq<RootReading>, key: Seq<char>)
    ensures
        0 <= provider_root(roots, key) <= roots.len(),
    decreases roots.len(),
{
    if roots.len() > 0 && !(opt(roots[0].key) == Some(key) && roots[0].has_providers) {
        lemma_provider_root(roots.drop_first(), key);
    }
}

fn find_repo_of(roots: &Vec<RootReading>, keys: &Vec<String>) -> (r: Option<String>)
    ensures
        opt(r) == repo_of(roots@, strs(keys@)),
{
    let mut i: usize = 0;
    assert(roots@.skip(0) =~= roots@);
    while i < roots.len()
        invariant
            i <= roots@.len(),
            repo_of(roots@, strs(keys@)) == repo_of(roots@.skip(i as int), strs(keys@)),
        decreases roots.len() - i,
    {
        assert(roots@.skip(i as int)[0] == roots@[i as int]);
        assert(roots@.skip(i as int).drop_first() =~= roots@.skip(i + 1));
        match &roots[i].key {
            Some(key) => {
                if strs_hold(keys, key.as_str()) {
                    return Some(key.clone());
                }
            },
            None => {},
        }
        i = i + 1;
    }
    None
}

fn find_provider_root(roots: &Vec<RootReading>, key: &str) -> (r: usize)
    ensures
        r == provider_root(roots@, key@),
        r <= roots@.len(),
{
    let mut i: usize = 0;
    assert(roots@.skip(0) =~= roots@);
    while i < roots.len()
        invariant
            i <= roots@.len(),
            provider_root(roots@, key@) == i + provider_root(roots@.skip(i as int), key@),
        decreases roots.len() - i,
    {
        assert(roots@.skip(i as int)[0] == roots@[i as int]);
        assert(roots@.skip(i as int).drop_first() =~= roots@.skip(i + 1));
        let same = match &roots[i].key {
            Some(k) => str_eq(k.as_str(), key),
            None => false,
        };
        if same && roots[i].has_providers {
            return i;
        }
        i = i + 1;
    }
    i
}

fn find_live_root(repos: &Vec<Vec<RootReading>>, keys: &Vec<String>, key: &str) -> (r: Option<(usize, usize)>)
    ensures
        match r {
            Some((a, b)) => live_root(repos@, strs(keys@), key@) == Some((a as int, b as int)),
            None => live_root(repos@, strs(keys@), key@) is None,
        },
{
    let mut found: Option<(usize, usize)> = None;
    let mut i: usize = 0;
    while i < repos.len()
        invariant
            i <= repos@.len(),
            match found {
                Some((a, b)) => live_root(repos@.take(i as int), strs(keys@), key@) == Some((a as int, b as int)),
                None => live_root(repos@.take(i as int), strs(keys@), key@) is None,
            },
        decreases repos.len() - i,
    {
        assert(repos@.take(i + 1).drop_last() =~= repos@.take(i as int));
        assert(repos@.take(i + 1).last() == repos@[i as int]);
        if found.is_none() {
            match find_repo_of(&repos[i], keys) {
                Some(repo) => {
                    if str_eq(repo.as_str(), key) {
                        let at = find_provider_root(&repos[i], key);
                        if at < repos[i].len() {
                            found = Some((i, at));
                        }
                    }
                },
                None => {},
            }
        }
        i = i + 1;
    }
    assert(repos@.take(repos@.len() as int) =~= repos@);
    found
}

fn held_before(keys: &Vec<String>, n: usize) -> (r: bool)
    requires
        n < keys@.len(),
    ensures
        r == holds(strs(keys@).take(n as int), strs(keys@)[n as int]),
{
    let ghost all = strs(keys@);
    let mut i: usize = 0;
    while i < n
        invariant
            i <= n < keys@.len(),
            all == strs(keys@),
            forall|k: int| 0 <= k < i ==> #[trigger] all.take(n as int)[k] != all[n as int],
        decreases n - i,
    {
        assert(all.take(n as int)[i as int] == keys@[i as int]@);
        if str_eq(keys[i].as_str(), keys[n].as_str()) {
            return true;
        }
        i = i + 1;
    }
    false
}

/// Where the wanted repositories are asked for the change request of a convoy.
pub fn live_candidates(repos: &Vec<Vec<RootReading>>, keys: &Vec<String>) -> (r: Vec<LiveRoot>)
    ensures
        places(r@) == live_roots(repos@, strs(keys@), keys@.len() as int),
{
    let mut r: Vec<LiveRoot> = Vec::new();
    let mut i: usize = 0;
    assert(places(r@) =~= live_roots(repos@, strs(keys@), 0));
    while i < keys.len()
        invariant
            i <= keys@.len(),
            places(r@) == live_roots(repos@, strs(keys@), i as int),
        decreases keys.len() - i,
    {
        assert(strs(keys@)[i as int] == keys@[i as int]@);
        if !held_before(keys, i) {
            match find_live_root(repos, keys, keys[i].as_str()) {
                Some((repo, root)) => {
                    let ghost was = places(r@);
                    let at = LiveRoot { key: i, repo, root };
                    r.push(at);
                    assert(places(r@) =~= was.push((i as int, repo as int, root as int)));
                },
                None => {},
            }
        }
        i = i + 1;
    }
    r
}

/// What a provider answers to a search: nothing, or the change request.
pub type SearchReply = Result<Option<String>, String>;

/// The first answer that holds a change request, or the number of answers.
pub open spec fn first_hit(replies: Seq<SearchReply>) -> int
    decreases replies.len(),
{
    if replies.len() == 0 || replies[0] matches Ok(Some(_)) {
        0
    } else {
        1 + first_hit(replies.drop_first())
    }
}

/// The first error among the answers, or the number of answers.
pub open spec fn first_error(replies: Seq<SearchReply>) -> int
    decreases replies.len(),
{
    if replies.len() == 0 || replies[0] is Err {
        0
    } else {
        1 + first_error(replies.drop_first())
    }
}

/// The first change request found wins over every error; an error counts where
/// nothing was found.
pub fn resolve_convoy_change_request(replies: &Vec<SearchReply>) -> (r: Result<Option<usize>, String>)
    ensures
        if first_hit(replies@) < replies@.len() {
            r == Ok::<Option<usize>, String>(Some(first_hit(replies@) as usize))
        } else if first_error(replies@) < replies@.len() {
            r matches Err(e) && replies@[first_error(replies@)] == Err::<Option<String>, String>(e)
        } else {
            r == Ok::<Option<usize>, String>(None)
        },
{
    let mut error: Option<usize> = None;
    let mut i: usize = 0;
    assert(replies@.skip(0) =~= replies@);
    while i < replies.len()
        invariant
            i <= replies@.len(),
            first_hit(replies@) == i + first_hit(replies@.skip(i as int)),
            match error {
                Some(x) => x < i && first_error(replies@) == x && replies@[x as int] is Err,
                None => first_error(replies@) == i + first_error(replies@.skip(i as int)),
            },
        decreases replies.len() - i,
    {
        assert(replies@.skip(i as int)[0] == replies@[i as int]);
        assert(replies@.skip(i as int).drop_first() =~= replies@.skip(i + 1));
        match &replies[i] {
            Ok(Some(_)) => {
                return Ok(Some(i));
            },
            Ok(None) => {},
            Err(_) => {
                if error.is_none() {
                    error = Some(i);
                }
            },
        }
        i = i + 1;
    }
    match error {
        Some(x) => match &replies[x] {
            Err(e) => Err(e.clone()),
            Ok(_) => Ok(None),
        },
        None => Ok(None),
    }
}

/// Where issues come from.
#[derive(Debug, PartialEq, Eq)]
pub struct IssueSource {
    pub service: String,
    pub scope: String,
}

impl View for IssueSource {
    type V = (Seq<char>, Seq<char>);

    open spec fn view(&self) -> (Seq<char>, Seq<char>) {
        (self.service@, self.scope@)
    }
}

/// Whether a project takes issues from a source.
pub open spec fn takes_from(sources: Seq<IssueSource>, source: (Seq<char>, Seq<char>)) -> bool {
    exists|i: int| 0 <= i < sources.len() && (#[trigger] sources[i])@ == source
}

/// An issue that is named with its source must be one of the project's.
pub fn check_issue_source(sources: &Vec<IssueSource>, source: &IssueSource, project: &str) -> (r: Result<(), String>)
    ensures
        match r {
            Ok(()) => takes_from(sources@, source@),
            Err(e) => !takes_from(sources@, source@) && e@ == "issue source "@ + source.service@ + " "@ + source.scope@
                + " is not part of project "@ + project@,
        },
{
    let mut i: usize = 0;
    while i < sources.len()
        invariant
            i <= sources@.len(),
            forall|k: int| 0 <= k < i ==> (#[trigger] sources@[k])@ != source@,
        decreases sources.len() - i,
    {
        if str_eq(sources[i].service.as_str(), source.service.as_str()) && str_eq(
            sources[i].scope.as_str(),
            source.scope.as_str(),
        ) {
            assert(sources@[i as int]@ == source@);
            return Ok(());
        }
        i = i + 1;
    }
    Err(
        concat6(
            "issue source ",
            source.service.as_str(),
            " ",
            source.scope.as_str(),
            " is not part of project ",
            project,
        ),
    )
}

/// The sources that know the issue.
pub open spec fn knowing(replies: Seq<Result<(), String>>) -> Seq<int>
    decreases replies.len(),
{
    if replies.len() == 0 {
        Seq::empty()
    } else if replies.last() is Ok {
        knowing(replies.drop_last()).push(replies.len() - 1)
    } else {
        knowing(replies.drop_last())
    }
}

/// What the sources that do not know it say.
pub open spec fn refusals(replies: Seq<Result<(), String>>) -> Seq<Seq<char>>
    decreases replies.len(),
{
    if replies.len() == 0 {
        Seq::empty()
    } else {
        match replies.last() {
            Err(e) => refusals(replies.drop_last()).push(e@),
            Ok(_) => refusals(replies.drop_last()),
        }
    }
}

/// The only source of a project that knows an issue of the id.
pub fn issue_by_id(id: &str, project: &str, replies: &Vec<Result<(), String>>) -> (r: Result<usize, String>)
    ensures
        ({
            let known = knowing(replies@);
            if known.len() == 1 {
                r matches Ok(i) && i == known[0]
            } else if known.len() == 0 {
                r matches Err(e) && e@ == "issue "@ + id@ + " was not found for project "@ + project@ + ": "@ + join(
                    refusals(replies@),
                    "; "@,
                )
            } else {
                r matches Err(e) && e@ == "issue "@ + id@ + " is ambiguous across "@ + decimal(known.len())
                    + " project issue sources"@
            }
        }),
{
    let mut said: Vec<String> = Vec::new();
    let mut first: usize = 0;
    let mut count: usize = 0;
    let mut i: usize = 0;
    assert(strs(said@) =~= refusals(replies@.take(0)));
    while i < replies.len()
        invariant
            i <= replies@.len(),
            strs(said@) == refusals(replies@.take(i as int)),
            count == knowing(replies@.take(i as int)).len(),
            count <= i,
            count > 0 ==> first == knowing(replies@.take(i as int))[0],
        decreases replies.len() - i,
    {
        assert(replies@.take(i + 1).drop_last() =~= replies@.take(i as int));
        assert(replies@.take(i + 1).last() == replies@[i as int]);
        match &replies[i] {
            Ok(_) => {
                if count == 0 {
                    first = i;
                }
                count = count + 1;
            },
            Err(e) => {
                let ghost was = strs(said@);
                said.push(e.clone());
                assert(strs(said@) =~= was.push(e@));
            },
        }
        i = i + 1;
    }
    assert(replies@.take(replies@.len() as int) =~= replies@);
    if count == 1 {
        Ok(first)
    } else if count == 0 {
        let joined = join_strs(&said, "; ");
        Err(concat6("issue ", id, " was not found for project ", project, ": ", joined.as_str()))
    } else {
        let n = decimal_str(count as u64);
        Err(concat5("issue ", id, " is ambiguous across ", n.as_str(), " project issue sources"))
    }
}

/// A repository of a project, and where its issues live, if anywhere.
#[derive(Debug, PartialEq, Eq)]
pub struct ForgedRepository {
    pub repo: String,
    pub forge: Option<IssueSource>,
}

/// The repositories whose issues come from the source.
pub open spec fn forged(repositories: Seq<ForgedRepository>, source: (Seq<char>, Seq<char>)) -> Seq<int>
    decreases repositories.len(),
{
    if repositories.len() == 0 {
        Seq::empty()
    } else {
        let before = forged(repositories.drop_last(), source);
        let last = repositories.last();
        if last.forge is Some && last.forge->0@ == source {
            before.push(repositories.len() - 1)
        } else {
            before
        }
    }
}

/// The repository that an issue is about: the only one whose issues come from
/// its source, or the only one there is.
pub open spec fn issue_repository(repositories: Seq<ForgedRepository>, source: (Seq<char>, Seq<char>)) -> Option<Seq<char>> {
    let at = forged(repositories, source);
    if at.len() == 1 {
        Some(repositories[at[0]].repo@)
    } else if at.len() == 0 && repositories.len() == 1 {
        Some(repositories[0].repo@)
    } else {
        None
    }
}

pub fn repository_of_issue(repositories: &Vec<ForgedRepository>, source: &IssueSource) -> (r: Option<String>)
    ensures
        opt(r) == issue_repository(repositories@, source@),
{
    let mut first: usize = 0;
    let mut count: usize = 0;
    let mut i: usize = 0;
    while i < repositories.len()
        invariant
            i <= repositories@.len(),
            count == forged(repositories@.take(i as int), source@).len(),
            count <= i,
            count > 0 ==> first < i && first == forged(repositories@.take(i as int), source@)[0],
        decreases repositories.len() - i,
    {
        assert(repositories@.take(i + 1).drop_last() =~= repositories@.take(i as int));
        assert(repositories@.take(i + 1).last() == repositories@[i as int]);
        let same = match &repositories[i].forge {
            Some(forge) => str_eq(forge.service.as_str(), source.service.as_str()) && str_eq(
                forge.scope.as_str(),
                source.scope.as_str(),
            ),
            None => false,
        };
        if same {
            if count == 0 {
                first = i;
            }
            count = count + 1;
        }
        i = i + 1;
    }
    assert(repositories@.take(repositories@.len() as int) =~= repositories@);
    if count == 1 {
        Some(repositories[first].repo.clone())
    } else if count == 0 && repositories.len() == 1 {
        Some(repositories[0].repo.clone())
    } else {
        None
    }
}

/// What is known of the issue sources of a project.
#[derive(Debug, PartialEq, Eq)]
pub enum SourcesReading {
    Available { sources: Vec<IssueSource> },
    RepositoryUnavailable { repository: String, message: String },
    NoSource,
}

/// Why a project offers no issue source.
pub open spec fn sources_problem(project: Seq<char>, reading: SourcesReading) -> Option<Seq<char>> {
    match reading {
        SourcesReading::Available { sources } => None,
        SourcesReading::RepositoryUnavailable { repository, message } => Some("repository "@ + repository@ + ": "@ + message@),
        SourcesReading::NoSource => Some("project "@ + project + " has no issue source"@),
    }
}

impl IssueSource {
    pub fn copy(&self) -> (r: Self)
        ensures
            r@ == self@,
    {
        IssueSource { service: self.service.clone(), scope: self.scope.clone() }
    }
}

/// The issue sources of a project that is called `project`.
pub fn issue_sources<'a>(project: &str, reading: &'a SourcesReading) -> (r: Result<&'a Vec<IssueSource>, String>)
    ensures
        match r {
            Ok(list) => *reading matches SourcesReading::Available { sources } && *list == sources,
            Err(e) => sources_problem(project@, *reading) == Some(e@),
        },
{
    match reading {
        SourcesReading::Available { sources } => Ok(sources),
        SourcesReading::RepositoryUnavailable { repository, message } => Err(
            concat4("repository ", repository.as_str(), ": ", message.as_str()),
        ),
        SourcesReading::NoSource => Err(concat3("project ", project, " has no issue source")),
    }
}

/// What is known so far of the issue of a convoy.
#[derive(Debug)]
pub struct IssueReadings {
    pub sources: Option<SourcesReading>,
    /// What each source that was asked says of the issue.
    pub replies: Option<Vec<Result<(), String>>>,
    /// The repositories of the project.
    pub repositories: Option<Result<Vec<ForgedRepository>, String>>,
}

/// What to find out next about the issue of a convoy, or what it comes to.
#[derive(Debug, PartialEq, Eq)]
pub enum IssueStep {
    AskSources,
    /// Each of these sources is asked for the issue of this id.
    AskIssue { sources: Vec<IssueSource>, id: String },
    AskRepositories,
    Refuse { message: String },
    /// The issue is the one that the source at `at` gave.
    Resolved { at: usize, repository_ref: Option<String> },
}

pub open spec fn views(sources: Seq<IssueSource>) -> Seq<(Seq<char>, Seq<char>)> {
    Seq::new(sources.len(), |i: int| sources[i]@)
}

pub open spec fn selected_id(selector: IssueSelector) -> Seq<char> {
    match selector {
        IssueSelector::Reference { service, scope, id } => id@,
        IssueSelector::Id { id } => id@,
    }
}

/// The sources that are asked for an issue.
pub open spec fn asked_sources(selector: IssueSelector, sources: Seq<IssueSource>) -> Seq<(Seq<char>, Seq<char>)> {
    match selector {
        IssueSelector::Reference { service, scope, id } => seq![(service@, scope@)],
        IssueSelector::Id { id } => views(sources),
    }
}

/// Which of the sources that were asked gave the issue, or why none did.
pub open spec fn issue_reply(selector: IssueSelector, project: Seq<char>, replies: Seq<Result<(), String>>) -> Result<int, Seq<char>> {
    match selector {
        IssueSelector::Reference { service, scope, id } => match replies[0] {
            Ok(_) => Ok(0),
            Err(e) => Err(e@),
        },
        IssueSelector::Id { id } => {
            let known = knowing(replies);
            if known.len() == 1 {
                Ok(known[0])
            } else if known.len() == 0 {
                Err("issue "@ + id@ + " was not found for project "@ + project + ": "@ + join(refusals(replies), "; "@))
            } else {
                Err("issue "@ + id@ + " is ambiguous across "@ + decimal(known.len()) + " project issue sources"@)
            }
        },
    }
}

/// `step` is what comes once it is known where the issue is asked for.
pub open spec fn issue_answered(
    step: IssueStep,
    selector: IssueSelector,
    project: Seq<char>,
    asked: Seq<(Seq<char>, Seq<char>)>,
    rd: IssueReadings,
) -> bool {
    let refused = |e: Seq<char>| step matches IssueStep::Refuse { message } && message@ == e;
    if rd.replies is None || rd.replies->0@.len() != asked.len() {
        step matches IssueStep::AskIssue { sources, id } && views(sources@) == asked && id@ == selected_id(selector)
    } else {
        match issue_reply(selector, project, rd.replies->0@) {
            Err(e) => refused(e),
            Ok(at) => match rd.repositories {
                None => step is AskRepositories,
                Some(Err(e)) => refused(e@),
                Some(Ok(list)) => step matches IssueStep::Resolved { at: i, repository_ref } && i == at && opt(repository_ref)
                    == issue_repository(list@, asked[at]),
            },
        }
    }
}

/// `step` is what comes next for the issue of a convoy.
pub open spec fn issue_decided(step: IssueStep, selector: IssueSelector, project: Seq<char>, rd: IssueReadings) -> bool {
    let refused = |e: Seq<char>| step matches IssueStep::Refuse { message } && message@ == e;
    match rd.sources {
        None => step is AskSources,
        Some(reading) => match reading {
            SourcesReading::Available { sources } => {
                if selector is Reference && !takes_from(sources@, (selector->service@, selector->scope@)) {
                    refused(
                        "issue source "@ + selector->service@ + " "@ + selector->scope@ + " is not part of project "@
                            + project,
                    )
                } else {
                    issue_answered(step, selector, project, asked_sources(selector, sources@), rd)
                }
            },
            _ => refused(sources_problem(project, reading)->0),
        },
    }
}

fn copy_sources(sources: &Vec<IssueSource>) -> (r: Vec<IssueSource>)
    ensures
        views(r@) == views(sources@),
{
    let mut r: Vec<IssueSource> = Vec::new();
    let mut i: usize = 0;
    while i < sources.len()
        invariant
            i <= sources@.len(),
            r@.len() == i,
            forall|k: int| 0 <= k < i ==> (#[trigger] r@[k])@ == sources@[k]@,
        decreases sources.len() - i,
    {
        r.push(sources[i].copy());
        i = i + 1;
    }
    assert(views(r@) =~= views(sources@));
    r
}

proof fn lemma_knowing(replies: Seq<Result<(), String>>)
    ensures
        forall|i: int| 0 <= i < knowing(replies).len() ==> 0 <= #[trigger] knowing(replies)[i] < replies.len(),
    decreases replies.len(),
{
    if replies.len() > 0 {
        let before = knowing(replies.drop_last());
        lemma_knowing(replies.drop_last());
        assert forall|i: int| 0 <= i < knowing(replies).len() implies 0 <= #[trigger] knowing(replies)[i] < replies.len() by {
            if i < before.len() {
                assert(knowing(replies)[i] == before[i]);
            }
        }
    }
}

/// Decides what comes next for the issue that a convoy is about.
pub fn resolve_convoy_issue(project: &str, selector: &IssueSelector, rd: &IssueReadings) -> (step: IssueStep)
    ensures
        issue_decided(step, *selector, project@, *rd),
{
    let sources = match &rd.sources {
        None => {
            return IssueStep::AskSources;
        },
        Some(reading) => match issue_sources(project, reading) {
            Err(message) => {
                return IssueStep::Refuse { message };
            },
            Ok(sources) => sources,
        },
    };
    match selector {
        IssueSelector::Reference { service, scope, id: _ } => {
            let source = IssueSource { service: service.clone(), scope: scope.clone() };
            match check_issue_source(sources, &source, project) {
                Err(message) => {
                    return IssueStep::Refuse { message };
                },
                Ok(()) => {},
            }
        },
        IssueSelector::Id { id: _ } => {},
    }
    let ghost asked = asked_sources(*selector, sources@);
    let (to_ask, id) = match selector {
        IssueSelector::Reference { service, scope, id } => {
            let mut one: Vec<IssueSource> = Vec::new();
            one.push(IssueSource { service: service.clone(), scope: scope.clone() });
            assert(views(one@) =~= asked);
            (one, id.clone())
        },
        IssueSelector::Id { id } => (copy_sources(sources), id.clone()),
    };
    assert(views(to_ask@).len() == to_ask@.len());
    let replies = match &rd.replies {
        Some(replies) if replies.len() == to_ask.len() => replies,
        _ => {
            return IssueStep::AskIssue { sources: to_ask, id };
        },
    };
    let found = match selector {
        IssueSelector::Reference { .. } => match &replies[0] {
            Ok(_) => Ok(0usize),
            Err(e) => Err(e.clone()),
        },
        IssueSelector::Id { id } => issue_by_id(id.as_str(), project, replies),
    };
    let at: usize = match found {
        Err(message) => {
            return IssueStep::Refuse { message };
        },
        Ok(at) => at,
    };
    proof {
        lemma_knowing(replies@);
    }
    match &rd.repositories {
        None => IssueStep::AskRepositories,
        Some(Err(e)) => IssueStep::Refuse { message: e.clone() },
        Some(Ok(list)) => {
            assert(views(to_ask@)[at as int] == to_ask@[at as int]@);
            IssueStep::Resolved { at, repository_ref: repository_of_issue(list, &to_ask[at]) }
        },
    }
}

/// Whether the issues of a repository can be asked for: its path must be
/// tracked, and some provider must serve the source of its issues.
pub fn check_repository_issues(registry: &RepoRegistry, path: &str, source: &IssueSource, served: bool) -> (r: Result<(), String>)
    ensures
        if !registry@.identities.dom().contains(path@) {
            r matches Err(e) && e@ == "no tracked repo for path"@
        } else if !served {
            r matches Err(e) && e@ == "no issue provider available for "@ + source.service@ + " "@ + source.scope@
        } else {
            r is Ok
        },
{
    if registry.tracked_repo_identity_for_path(path).is_none() {
        return Err("no tracked repo for path".to_owned());
    }
    if !served {
        return Err(
            concat4("no issue provider available for ", source.service.as_str(), " ", source.scope.as_str()),
        );
    }
    Ok(())
}

} // verus!
