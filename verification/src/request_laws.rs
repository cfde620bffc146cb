//! What holds of every change request and issue that is looked for, and of
//! every checkout that is adopted.
use vstd::prelude::*;

use crate::admission::IssueSelector;
use crate::change_requests::{
    asked, first_error, first_hit, forged, found_in, issue_decided, issue_repository, knowing, live_root, provider_root,
    request_resolution, settled_at, DescribedRequest, ForgedRepository, IssueReadings, IssueSource, IssueStep, RequestCandidate,
    ResolvedRequest, RootReading, SearchReply, SourcesReading,
};
use crate::checkouts::{
    adopt_decided, adopter_at, copy_at, declared_remotes, declaring_names, several_names, AdoptReadings, AdoptRequest, AdoptStep,
    AdoptedCheckout, AdoptingConvoy, DeclaredSource,
};
use crate::ordered::{lemma_sorted_unique_exists, sorted_unique};
use crate::text::{holds, opt, strs};

verus! {

/// Whether a reply describes a change request that can be adopted: one that
/// says what it is based on.
pub open spec fn describes(reply: Result<DescribedRequest, String>) -> bool {
    reply matches Ok(request) && request.base_ref is Some
}

/// Whether a repository knows the change request.
pub open spec fn knows(candidate: RequestCandidate) -> bool {
    exists|i: int| 0 <= i < candidate.replies@.len() && describes(#[trigger] candidate.replies@[i])
}

proof fn lemma_settled(replies: Seq<Result<DescribedRequest, String>>)
    ensures
        0 <= settled_at(replies) <= replies.len(),
        settled_at(replies) < replies.len() ==> describes(replies[settled_at(replies)]),
        forall|i: int| 0 <= i < settled_at(replies) ==> !describes(#[trigger] replies[i]),
    decreases replies.len(),
{
    if replies.len() > 0 && !describes(replies[0]) {
        let rest = replies.drop_first();
        lemma_settled(rest);
        assert forall|i: int| 0 <= i < settled_at(replies) implies !describes(#[trigger] replies[i]) by {
            if i > 0 {
                assert(rest[i - 1] == replies[i]);
            }
        }
    }
}

proof fn lemma_knows(candidate: RequestCandidate)
    ensures
        settled_at(candidate.replies@) < candidate.replies@.len() <==> knows(candidate),
{
    lemma_settled(candidate.replies@);
    if knows(candidate) {
        let i = choose|i: int| 0 <= i < candidate.replies@.len() && describes(#[trigger] candidate.replies@[i]);
        if settled_at(candidate.replies@) >= candidate.replies@.len() {
            assert(!describes(candidate.replies@[i]));
        }
    }
}

proof fn lemma_found_in(candidates: Seq<RequestCandidate>)
    ensures
        forall|k: int| 0 <= k < found_in(candidates).len() ==> 0 <= #[trigger] found_in(candidates)[k] < candidates.len() && knows(
            candidates[found_in(candidates)[k]],
        ),
        forall|c: int| 0 <= c < candidates.len() && knows(#[trigger] candidates[c]) ==> found_in(candidates).contains(c),
        forall|j: int, k: int| 0 <= j < k < found_in(candidates).len() ==> #[trigger] found_in(candidates)[j] < #[trigger] found_in(candidates)[k],
    decreases candidates.len(),
{
    if candidates.len() > 0 {
        let front = candidates.drop_last();
        lemma_found_in(front);
        lemma_knows(candidates.last());
        let before = found_in(front);
        let all = found_in(candidates);
        assert(forall|k: int| 0 <= k < before.len() ==> #[trigger] all[k] == before[k]);
        assert forall|k: int| 0 <= k < all.len() implies 0 <= #[trigger] all[k] < candidates.len() && knows(candidates[all[k]]) by {
            if k < before.len() {
                assert(front[before[k]] == candidates[before[k]]);
            }
        }
        assert forall|c: int| 0 <= c < candidates.len() && knows(#[trigger] candidates[c]) implies all.contains(c) by {
            if c < front.len() {
                assert(front[c] == candidates[c]);
                let k = choose|k: int| 0 <= k < before.len() && before[k] == c;
                assert(all[k] == c);
            } else {
                assert(all[before.len() as int] == c);
            }
        }
        assert forall|j: int, k: int| 0 <= j < k < all.len() implies #[trigger] all[j] < #[trigger] all[k] by {
            if k < before.len() {
                assert(before[j] < before[k]);
            } else {
                assert(before[j] < front.len());
            }
        }
    }
}

/// A change request is found where exactly one repository knows it, and is
/// then what the first of that repository's replies that can be used says: its
/// number, title and branch, and what it is based on.
pub proof fn law_requests_are_found_in_one_repository(
    r: Result<ResolvedRequest, String>,
    requested: Seq<char>,
    candidates: Seq<RequestCandidate>,
)
    requires
        request_resolution(r, requested, candidates),
    ensures
        r is Ok <==> exists|c: int|
            0 <= c < candidates.len() && knows(#[trigger] candidates[c]) && forall|d: int|
                0 <= d < candidates.len() && knows(#[trigger] candidates[d]) ==> d == c,
        r matches Ok(x) ==> exists|c: int, i: int|
            0 <= c < candidates.len() && x.repository_ref@ == candidates[c].repository@ && 0 <= i < candidates[c].replies@.len() && (
            forall|j: int| 0 <= j < i ==> !describes(#[trigger] candidates[c].replies@[j])) && (
            #[trigger] candidates[c].replies@[i] matches Ok(request) && x.id@ == request.id@ && x.title@ == request.title@ && x.branch@
                == request.branch@ && opt(request.base_ref) == Some(x.base_ref@)),
{
    lemma_found_in(candidates);
    let found = found_in(candidates);
    if r is Ok {
        let c = found[0];
        lemma_settled(candidates[c].replies@);
        let i = settled_at(candidates[c].replies@);
        assert(candidates[c].replies@[i] is Ok);
        assert forall|d: int| 0 <= d < candidates.len() && knows(#[trigger] candidates[d]) implies d == c by {
            assert(found.contains(d));
        }
        assert(knows(candidates[c]));
    }
    if exists|c: int|
        0 <= c < candidates.len() && knows(#[trigger] candidates[c]) && forall|d: int|
            0 <= d < candidates.len() && knows(#[trigger] candidates[d]) ==> d == c {
        let c = choose|c: int|
            0 <= c < candidates.len() && knows(#[trigger] candidates[c]) && forall|d: int|
                0 <= d < candidates.len() && knows(#[trigger] candidates[d]) ==> d == c;
        assert(found.contains(c));
        if found.len() > 1 {
            assert(knows(candidates[found[0]]) && knows(candidates[found[1]]));
            assert(found[0] < found[1]);
        }
    }
}

/// Each repository of the project that can be asked is asked once, at the
/// first of its places that can.
pub proof fn law_repositories_are_asked_once(roots: Seq<RootReading>, keys: Seq<Seq<char>>, n: int, i: int)
    requires
        0 <= n <= roots.len(),
    ensures
        forall|k: int| 0 <= k < asked(roots, keys, n).len() ==> 0 <= #[trigger] asked(roots, keys, n)[k] < n && roots[asked(
            roots,
            keys,
            n,
        )[k]].has_providers && (roots[asked(roots, keys, n)[k]].key matches Some(key) && holds(keys, key@)),
        forall|j: int, k: int|
            0 <= j < k < asked(roots, keys, n).len() ==> opt(roots[#[trigger] asked(roots, keys, n)[j]].key) != opt(
                roots[#[trigger] asked(roots, keys, n)[k]].key,
            ),
        0 <= i < n && roots[i].has_providers && (roots[i].key matches Some(key) && holds(keys, key@)) ==> exists|k: int|
            0 <= k < asked(roots, keys, n).len() && opt(roots[#[trigger] asked(roots, keys, n)[k]].key) == opt(roots[i].key),
    decreases n,
{
    if n > 0 {
        law_repositories_are_asked_once(roots, keys, n - 1, i);
        let before = asked(roots, keys, n - 1);
        let all = asked(roots, keys, n);
        assert(forall|k: int| 0 <= k < before.len() ==> #[trigger] all[k] == before[k]);
        assert forall|k: int| 0 <= k < all.len() implies 0 <= #[trigger] all[k] < n && roots[all[k]].has_providers && (
        roots[all[k]].key matches Some(key) && holds(keys, key@)) by {
            if k < before.len() {
                assert(0 <= before[k] < n - 1);
            }
        }
        assert forall|j: int, k: int| 0 <= j < k < all.len() implies opt(roots[#[trigger] all[j]].key) != opt(roots[#[trigger] all[k]].key) by {
            if k < before.len() {
                assert(opt(roots[before[j]].key) != opt(roots[before[k]].key));
            } else {
                assert(before[j] == all[j]);
                let root = roots[before[j]];
                assert(opt(root.key) != Some(roots[n - 1].key->0@));
            }
        }
        if 0 <= i < n && roots[i].has_providers && (roots[i].key matches Some(key) && holds(keys, key@)) {
            if i < n - 1 {
                let k = choose|k: int| 0 <= k < before.len() && opt(roots[#[trigger] before[k]].key) == opt(roots[i].key);
                assert(all[k] == before[k]);
            } else if all.len() > before.len() {
                assert(all[before.len() as int] == n - 1);
            } else {
                let key = roots[n - 1].key->0@;
                let k = choose|k: int| 0 <= k < before.len() && opt((#[trigger] roots[before[k]]).key) == Some(key);
                assert(all[k] == before[k]);
            }
        }
    }
}

proof fn lemma_provider_root(roots: Seq<RootReading>, key: Seq<char>)
    ensures
        0 <= provider_root(roots, key) <= roots.len(),
        provider_root(roots, key) < roots.len() ==> opt(roots[provider_root(roots, key)].key) == Some(key) && roots[provider_root(
            roots,
            key,
        )].has_providers,
    decreases roots.len(),
{
    if roots.len() > 0 && !(opt(roots[0].key) == Some(key) && roots[0].has_providers) {
        lemma_provider_root(roots.drop_first(), key);
    }
}

/// A live place of a repository is one of a tracked repository, is of this
/// key, and can be asked.
pub proof fn law_live_places_can_be_asked(repos: Seq<Vec<RootReading>>, keys: Seq<Seq<char>>, key: Seq<char>)
    ensures
        live_root(repos, keys, key) matches Some((repo, root)) ==> 0 <= repo < repos.len() && 0 <= root < repos[repo]@.len() && opt(
            repos[repo]@[root].key,
        ) == Some(key) && repos[repo]@[root].has_providers,
    decreases repos.len(),
{
    if repos.len() > 0 {
        law_live_places_can_be_asked(repos.drop_last(), keys, key);
        lemma_provider_root(repos.last()@, key);
    }
}

proof fn lemma_first_hit(replies: Seq<SearchReply>)
    ensures
        0 <= first_hit(replies) <= replies.len(),
        first_hit(replies) < replies.len() ==> (replies[first_hit(replies)] matches Ok(Some(_))),
        forall|i: int| 0 <= i < first_hit(replies) ==> !(#[trigger] replies[i] matches Ok(Some(_))),
    decreases replies.len(),
{
    if replies.len() > 0 && !(replies[0] matches Ok(Some(_))) {
        let rest = replies.drop_first();
        lemma_first_hit(rest);
        assert forall|i: int| 0 <= i < first_hit(replies) implies !(#[trigger] replies[i] matches Ok(Some(_))) by {
            if i > 0 {
                assert(rest[i - 1] == replies[i]);
            }
        }
    }
}

proof fn lemma_first_error(replies: Seq<SearchReply>)
    ensures
        0 <= first_error(replies) <= replies.len(),
        first_error(replies) < replies.len() ==> replies[first_error(replies)] is Err,
        forall|i: int| 0 <= i < first_error(replies) ==> !(#[trigger] replies[i] is Err),
    decreases replies.len(),
{
    if replies.len() > 0 && !(replies[0] is Err) {
        let rest = replies.drop_first();
        lemma_first_error(rest);
        assert forall|i: int| 0 <= i < first_error(replies) implies !(#[trigger] replies[i] is Err) by {
            if i > 0 {
                assert(rest[i - 1] == replies[i]);
            }
        }
    }
}

/// The first reply that has a hit is the one that counts, and the first that
/// failed is the one that is told, wherever they stand.
pub proof fn law_the_first_hit_counts(replies: Seq<SearchReply>, i: int)
    ensures
        first_hit(replies) < replies.len() <==> exists|k: int| 0 <= k < replies.len() && (#[trigger] replies[k] matches Ok(Some(_))),
        0 <= i < replies.len() && (replies[i] matches Ok(Some(_))) ==> first_hit(replies) <= i && (
        replies[first_hit(replies)] matches Ok(Some(_))),
        first_error(replies) < replies.len() <==> exists|k: int| 0 <= k < replies.len() && #[trigger] replies[k] is Err,
        0 <= i < replies.len() && replies[i] is Err ==> first_error(replies) <= i && replies[first_error(replies)] is Err,
{
    lemma_first_hit(replies);
    lemma_first_error(replies);
    if exists|k: int| 0 <= k < replies.len() && (#[trigger] replies[k] matches Ok(Some(_))) {
        let k = choose|k: int| 0 <= k < replies.len() && (#[trigger] replies[k] matches Ok(Some(_)));
        assert(first_hit(replies) <= k);
    }
    if exists|k: int| 0 <= k < replies.len() && #[trigger] replies[k] is Err {
        let k = choose|k: int| 0 <= k < replies.len() && #[trigger] replies[k] is Err;
        assert(first_error(replies) <= k);
    }
}

proof fn lemma_knowing(replies: Seq<Result<(), String>>)
    ensures
        forall|k: int| 0 <= k < knowing(replies).len() ==> 0 <= #[trigger] knowing(replies)[k] < replies.len() && replies[knowing(
            replies,
        )[k]] is Ok,
        forall|i: int| 0 <= i < replies.len() && #[trigger] replies[i] is Ok ==> knowing(replies).contains(i),
    decreases replies.len(),
{
    if replies.len() > 0 {
        let front = replies.drop_last();
        lemma_knowing(front);
        let before = knowing(front);
        let all = knowing(replies);
        assert(forall|k: int| 0 <= k < before.len() ==> #[trigger] all[k] == before[k]);
        assert forall|k: int| 0 <= k < all.len() implies 0 <= #[trigger] all[k] < replies.len() && replies[all[k]] is Ok by {
            if k < before.len() {
                assert(front[before[k]] == replies[before[k]]);
            }
        }
        assert forall|i: int| 0 <= i < replies.len() && #[trigger] replies[i] is Ok implies all.contains(i) by {
            if i < front.len() {
                assert(front[i] == replies[i]);
                let k = choose|k: int| 0 <= k < before.len() && before[k] == i;
                assert(all[k] == i);
            } else {
                assert(all[before.len() as int] == i);
            }
        }
    }
}

/// Whether a project takes its issues from a source.
pub open spec fn is_source(sources: Seq<IssueSource>, service: Seq<char>, scope: Seq<char>) -> bool {
    exists|i: int| 0 <= i < sources.len() && (#[trigger] sources[i]).service@ == service && sources[i].scope@ == scope
}

/// An issue that is referred to in full is looked for where it is said to be,
/// which has to be a source of the project.
pub proof fn law_referred_issues_are_of_the_project(
    step: IssueStep,
    service: String,
    scope: String,
    id: String,
    project: Seq<char>,
    rd: IssueReadings,
)
    requires
        issue_decided(step, IssueSelector::Reference { service, scope, id }, project, rd),
    ensures
        step is AskIssue || step is Resolved || step is AskRepositories ==> (rd.sources matches Some(SourcesReading::Available { sources })
            && is_source(sources@, service@, scope@)),
        step matches IssueStep::AskIssue { sources: at, id: i } ==> at@.len() == 1 && at@[0].service@ == service@ && at@[0].scope@ == scope@
            && i@ == id@,
        step matches IssueStep::Resolved { at, repository_ref } ==> at == 0 && (rd.replies matches Some(replies) && replies@.len() == 1
            && replies@[0] is Ok),
{
    if rd.sources is Some && rd.sources->0 is Available {
        let sources = rd.sources->0->sources@;
        if crate::change_requests::takes_from(sources, (service@, scope@)) {
            let i = choose|i: int| 0 <= i < sources.len() && (#[trigger] sources[i])@ == (service@, scope@);
            assert(sources[i].service@ == service@ && sources[i].scope@ == scope@);
        }
    }
    if step is AskIssue {
        let at = step->AskIssue_sources@;
        let views = crate::change_requests::views(at);
        assert(views.len() == 1);
        assert(views[0] == at[0]@);
    }
}

/// An issue that only its number is known of is looked for in every source of
/// the project, and found where exactly one of them has it.
pub proof fn law_numbered_issues_are_found_in_one_source(step: IssueStep, id: String, project: Seq<char>, rd: IssueReadings, i: int)
    requires
        issue_decided(step, IssueSelector::Id { id }, project, rd),
    ensures
        step matches IssueStep::AskIssue { sources: at, id: n } ==> (rd.sources matches Some(SourcesReading::Available { sources })
            && at@.len() == sources@.len() && (0 <= i < at@.len() ==> at@[i].service@ == sources@[i].service@ && at@[i].scope@
            == sources@[i].scope@)) && n@ == id@,
        step matches IssueStep::Resolved { at, repository_ref } ==> (rd.replies matches Some(replies) && at < replies@.len()
            && replies@[at as int] is Ok && (0 <= i < replies@.len() && i != at ==> replies@[i] is Err)),
{
    if step is AskIssue {
        let at = step->AskIssue_sources@;
        let sources = rd.sources->0->sources@;
        let views = crate::change_requests::views(at);
        let wanted = crate::change_requests::views(sources);
        assert(views == wanted);
        assert(views.len() == at.len() && wanted.len() == sources.len());
        if 0 <= i < at.len() {
            assert(views[i] == at[i]@ && wanted[i] == sources[i]@);
        }
    }
    if step is Resolved {
        let replies = rd.replies->0@;
        lemma_knowing(replies);
        let known = knowing(replies);
        assert(known[0] == step->at);
        if 0 <= i < replies.len() && i != step->at && replies[i] is Ok {
            assert(known.contains(i));
        }
    }
}

proof fn lemma_forged(repositories: Seq<ForgedRepository>, source: (Seq<char>, Seq<char>))
    ensures
        forall|k: int| 0 <= k < forged(repositories, source).len() ==> 0 <= #[trigger] forged(repositories, source)[k] < repositories.len() && (
        repositories[forged(repositories, source)[k]].forge matches Some(f) && f@ == source),
        forall|i: int|
            0 <= i < repositories.len() && ((#[trigger] repositories[i]).forge matches Some(f) && f@ == source) ==> forged(
                repositories,
                source,
            ).contains(i),
    decreases repositories.len(),
{
    if repositories.len() > 0 {
        let front = repositories.drop_last();
        lemma_forged(front, source);
        let before = forged(front, source);
        let all = forged(repositories, source);
        assert(forall|k: int| 0 <= k < before.len() ==> #[trigger] all[k] == before[k]);
        assert forall|k: int| 0 <= k < all.len() implies 0 <= #[trigger] all[k] < repositories.len() && (
        repositories[all[k]].forge matches Some(f) && f@ == source) by {
            if k < before.len() {
                assert(front[before[k]] == repositories[before[k]]);
            }
        }
        assert forall|i: int|
            0 <= i < repositories.len() && ((#[trigger] repositories[i]).forge matches Some(f) && f@ == source) implies all.contains(i) by {
            if i < front.len() {
                assert(front[i] == repositories[i]);
                let k = choose|k: int| 0 <= k < before.len() && before[k] == i;
                assert(all[k] == i);
            } else {
                assert(all[before.len() as int] == i);
            }
        }
    }
}

/// An issue is about the only repository that its source is the forge of, or
/// the only repository there is where its source is the forge of none.
pub proof fn law_issues_are_about_the_repository_of_their_forge(repositories: Seq<ForgedRepository>, source: (Seq<char>, Seq<char>), i: int)
    ensures
        issue_repository(repositories, source) matches Some(repo) ==> exists|r: int|
            0 <= r < repositories.len() && (#[trigger] repositories[r]).repo@ == repo && ((repositories[r].forge matches Some(f) && f@
                == source) || repositories.len() == 1),
        issue_repository(repositories, source) is Some && repositories.len() > 1 && 0 <= i < repositories.len() && (
        repositories[i].forge matches Some(f) && f@ == source) ==> issue_repository(repositories, source) == Some(repositories[i].repo@),
{
    lemma_forged(repositories, source);
    let at = forged(repositories, source);
    if at.len() == 1 {
        assert(repositories[at[0]].repo@ == repositories[at[0]].repo@);
    }
    if 0 <= i < repositories.len() && (repositories[i].forge matches Some(f) && f@ == source) {
        assert(at.contains(i));
    }
    if repositories.len() == 1 {
        assert(repositories[0].repo@ == repositories[0].repo@);
    }
}

proof fn lemma_declaring(sources: Seq<DeclaredSource>, name: Seq<char>)
    ensures
        holds(declaring_names(sources), name) <==> exists|i: int|
            0 <= i < sources.len() && (#[trigger] sources[i]).declares && sources[i].name@ == name,
    decreases sources.len(),
{
    if sources.len() > 0 {
        let front = sources.drop_last();
        lemma_declaring(front, name);
        let before = declaring_names(front);
        let all = declaring_names(sources);
        let n = sources.len() - 1;
        assert(sources[n] == sources.last());
        if holds(all, name) {
            let k = choose|k: int| 0 <= k < all.len() && #[trigger] all[k] == name;
            if k < before.len() {
                assert(before[k] == name);
                let i = choose|i: int| 0 <= i < front.len() && (#[trigger] front[i]).declares && front[i].name@ == name;
                assert(sources[i] == front[i]);
            }
        }
        if exists|i: int| 0 <= i < sources.len() && (#[trigger] sources[i]).declares && sources[i].name@ == name {
            let i = choose|i: int| 0 <= i < sources.len() && (#[trigger] sources[i]).declares && sources[i].name@ == name;
            if i < n {
                assert(front[i] == sources[i]);
                assert(holds(before, name));
                let k = choose|k: int| 0 <= k < before.len() && #[trigger] before[k] == name;
                assert(all[k] == name);
            } else {
                assert(all[before.len() as int] == name);
            }
        }
    }
}

proof fn lemma_copy_at(sources: Seq<DeclaredSource>, name: Seq<char>, several: bool)
    ensures
        0 <= copy_at(sources, name, several) <= sources.len(),
        copy_at(sources, name, several) < sources.len() ==> ({
            let s = sources[copy_at(sources, name, several)];
            s.name@ == name && s.declares && (several ==> s.remotes@.len() > 1)
        }),
        forall|i: int|
            0 <= i < copy_at(sources, name, several) ==> !((#[trigger] sources[i]).name@ == name && sources[i].declares && (several
                ==> sources[i].remotes@.len() > 1)),
    decreases sources.len(),
{
    if sources.len() > 0 && !(sources[0].name@ == name && sources[0].declares && (several ==> sources[0].remotes@.len() > 1)) {
        let rest = sources.drop_first();
        lemma_copy_at(rest, name, several);
        assert forall|i: int| 0 <= i < copy_at(sources, name, several) implies !((#[trigger] sources[i]).name@ == name
            && sources[i].declares && (several ==> sources[i].remotes@.len() > 1)) by {
            if i > 0 {
                assert(rest[i - 1] == sources[i]);
            }
        }
    }
}

proof fn lemma_several(sources: Seq<DeclaredSource>, names: Seq<Seq<char>>, k: int)
    requires
        0 <= k < several_names(sources, names).len(),
    ensures
        copy_at(sources, several_names(sources, names)[k], true) < sources.len(),
    decreases names.len(),
{
    if k < several_names(sources, names.drop_last()).len() {
        lemma_several(sources, names.drop_last(), k);
    }
}

/// The remotes of a declared repository are those of a source that declares
/// it, one that declares several where there is one; nothing is declared where
/// no source does.
pub proof fn law_declared_remotes_are_of_a_declaration(remote: Seq<char>, sources: Seq<DeclaredSource>)
    ensures
        declared_remotes(remote, sources) matches Ok(Some(remotes)) ==> exists|i: int|
            0 <= i < sources.len() && (#[trigger] sources[i]).declares && strs(sources[i].remotes@) == remotes,
        (forall|i: int| 0 <= i < sources.len() ==> !(#[trigger] sources[i]).declares) ==> declared_remotes(remote, sources) == Ok::<
            Option<Seq<Seq<char>>>,
            Seq<char>,
        >(None),
        declared_remotes(remote, sources) == Ok::<Option<Seq<Seq<char>>>, Seq<char>>(None) ==> forall|i: int|
            0 <= i < sources.len() ==> !(#[trigger] sources[i]).declares,
{
    let all = declaring_names(sources);
    let names = sorted_unique(all);
    lemma_sorted_unique_exists(all);
    let several = several_names(sources, names);
    if several.len() == 1 {
        lemma_several(sources, names, 0);
        lemma_copy_at(sources, several[0], true);
    } else if names.len() == 1 {
        let name = names[0];
        assert(holds(names, name));
        lemma_declaring(sources, name);
        lemma_copy_at(sources, name, true);
        lemma_copy_at(sources, name, false);
        let i = choose|i: int| 0 <= i < sources.len() && (#[trigger] sources[i]).declares && sources[i].name@ == name;
        if copy_at(sources, name, false) >= sources.len() {
            assert(!(sources[i].name@ == name && sources[i].declares));
        }
    }
    if forall|i: int| 0 <= i < sources.len() ==> !(#[trigger] sources[i]).declares {
        if names.len() > 0 {
            assert(holds(names, names[0]));
            lemma_declaring(sources, names[0]);
        }
        if several.len() > 0 {
            lemma_several(sources, names, 0);
            lemma_copy_at(sources, several[0], true);
        }
    }
    if declared_remotes(remote, sources) == Ok::<Option<Seq<Seq<char>>>, Seq<char>>(None) {
        assert forall|i: int| 0 <= i < sources.len() implies !(#[trigger] sources[i]).declares by {
            if sources[i].declares {
                lemma_declaring(sources, sources[i].name@);
                assert(holds(names, sources[i].name@));
            }
        }
    }
}

/// Sources that declare several remotes for one repository have to agree.
pub proof fn law_declarations_have_to_agree(remote: Seq<char>, sources: Seq<DeclaredSource>, i: int, j: int)
    requires
        0 <= i < sources.len() && 0 <= j < sources.len(),
        sources[i].declares && sources[i].remotes@.len() > 1,
        sources[j].declares && sources[j].remotes@.len() > 1,
        sources[i].name@ == sources[j].name@,
        strs(sources[i].remotes@) != strs(sources[j].remotes@),
    ensures
        declared_remotes(remote, sources) is Err,
{
    assert(crate::checkouts::declares_several(sources[i]) && crate::checkouts::declares_several(sources[j]));
}

/// A checkout is adopted as it was found, unless the repository and the ref
/// were told: then it is of the repository that is configured at its real
/// path, at that ref, on this host, and main where the ref is called so.
pub proof fn law_checkouts_are_adopted_as_told(step: AdoptStep, req: AdoptRequest, rd: AdoptReadings)
    requires
        adopt_decided(step, req, rd),
    ensures
        ({
            let told = req.repository_url is Some && req.git_ref is Some && rd.url_is_remote;
            &&& (step matches AdoptStep::Inspected { inspection } ==> if told {
                &&& (rd.canonical matches Some(Ok(path)) && inspection.path@ == path@)
                &&& (rd.configured matches Some(Ok(key)) && inspection.repo_ref@ == key@)
                &&& (rd.local_host matches Some(host) && inspection.host_ref@ == host@)
                &&& inspection.git_ref@ == req.git_ref->0@
                &&& opt(inspection.transport_url) == Some(req.repository_url->0@)
                &&& inspection.is_main <==> (req.git_ref->0@ == "main"@ || req.git_ref->0@ == "master"@ || req.git_ref->0@ == "trunk"@)
            } else {
                rd.inspected matches Some(Ok(found)) && inspection.path@ == found.path@ && inspection.repo_ref@ == found.repo_ref@
                    && inspection.host_ref@ == found.host_ref@ && inspection.git_ref@ == found.git_ref@ && inspection.is_main
                    == found.is_main && opt(inspection.transport_url) == opt(found.transport_url)
            })
            &&& step is AskInspection ==> !told
            &&& step is AskCanonical || step is AskConfigured ==> told
        }),
{
}

/// Whether a convoy adopted a checkout: it is of the same root where that is
/// known, and is named by the checkout, or else names it.
pub open spec fn is_adopter(convoy: AdoptingConvoy, checkout: AdoptedCheckout) -> bool {
    &&& checkout.source_root matches Some(root) ==> opt(convoy.origin_root) == Some(root@)
    &&& checkout.convoy_ref matches Some(name) ==> convoy.name@ == name@
    &&& checkout.convoy_ref is None ==> (convoy.expected matches Some(expected) && exists|i: int|
        0 <= i < expected@.len() && (#[trigger] expected@[i])@ == checkout.name@)
}

proof fn lemma_adopter(convoy: AdoptingConvoy, checkout: AdoptedCheckout)
    ensures
        crate::checkouts::adopted_it(convoy, checkout) <==> is_adopter(convoy, checkout),
{
    if convoy.expected is Some {
        let expected = convoy.expected->0@;
        let names = strs(expected);
        if holds(names, checkout.name@) {
            let i = choose|i: int| 0 <= i < names.len() && #[trigger] names[i] == checkout.name@;
            assert(expected[i]@ == checkout.name@);
        }
        if exists|i: int| 0 <= i < expected.len() && (#[trigger] expected[i])@ == checkout.name@ {
            let i = choose|i: int| 0 <= i < expected.len() && (#[trigger] expected[i])@ == checkout.name@;
            assert(names[i] == checkout.name@);
        }
    }
}

/// The convoy that adopted a checkout is the first that did.
pub proof fn law_checkouts_have_their_adopter(convoys: Seq<AdoptingConvoy>, checkout: AdoptedCheckout)
    ensures
        adopter_at(convoys, checkout) < convoys.len() ==> is_adopter(convoys[adopter_at(convoys, checkout)], checkout),
        0 <= adopter_at(convoys, checkout) <= convoys.len(),
        forall|i: int| 0 <= i < adopter_at(convoys, checkout) ==> !is_adopter(#[trigger] convoys[i], checkout),
    decreases convoys.len(),
{
    if convoys.len() > 0 {
        lemma_adopter(convoys[0], checkout);
        if !is_adopter(convoys[0], checkout) {
            let rest = convoys.drop_first();
            law_checkouts_have_their_adopter(rest, checkout);
            assert forall|i: int| 0 <= i < adopter_at(convoys, checkout) implies !is_adopter(#[trigger] convoys[i], checkout) by {
                if i > 0 {
                    assert(rest[i - 1] == convoys[i]);
                }
            }
        }
    }
}

} // verus!
