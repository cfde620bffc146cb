//! What holds of the repositories that are tracked, and of how one of them is
//! picked.
use vstd::prelude::*;

use crate::repos::{
    after_add, after_startup, after_track, after_untrack, after_virtual, can_untrack, empty_registry, has_root, identity_or_fallback,
    lemma_repo_at, local_roots, lookup_of, meant, merge_problem, paths_here, repo_at, selected_path, well_kept, without_root,
    CheckoutReading, CheckoutSelector, RegistryView, RepoLookup, RepoNeed, RepoSelector, RepoView, RootView, StanceReading, StartupRepo,
};
use crate::text::{has_text, holds};

verus! {

/// A path that is tracked for the first time belongs to the repository that
/// was found there, as one of its places on this host, and has its key where
/// there is one. No other path changes hands.
pub proof fn law_tracked_paths_belong_to_their_repository(
    v: RegistryView,
    path: Seq<char>,
    identity: (Seq<char>, Seq<char>),
    key: Option<Seq<char>>,
)
    requires
        !v.identities.dom().contains(path),
    ensures
        ({
            let after = after_track(v, path, identity, key);
            &&& after.identities.dom().contains(path) && after.identities[path] == identity
            &&& (key matches Some(k) ==> after.keys.dom().contains(path) && after.keys[path] == k)
            &&& (key is None ==> after.keys == v.keys)
            &&& exists|r: int|
                0 <= r < after.repos.len() && (#[trigger] after.repos[r]).identity == identity && exists|k: int|
                    0 <= k < after.repos[r].roots.len() && (#[trigger] after.repos[r].roots[k]).path == path
                        && after.repos[r].roots[k].is_local
            &&& forall|p: Seq<char>|
                p != path ==> (#[trigger] after.identities.dom().contains(p) <==> v.identities.dom().contains(p)) && (
                v.identities.dom().contains(p) ==> after.identities[p] == v.identities[p]) && (after.keys.dom().contains(p)
                    <==> v.keys.dom().contains(p)) && (v.keys.dom().contains(p) ==> after.keys[p] == v.keys[p])
        }),
{
    let after = after_track(v, path, identity, key);
    lemma_repo_at(v.repos, identity);
    let at = repo_at(v.repos, identity);
    if at < v.repos.len() {
        let roots = after.repos[at].roots;
        assert(after.repos[at].identity == identity);
        assert(roots[roots.len() - 1] == (RootView { path, is_local: true }));
    } else {
        let n = v.repos.len() as int;
        assert(after.repos[n].identity == identity);
        assert(after.repos[n].roots[0] == (RootView { path, is_local: true }));
    }
}

/// Tracking a path leaves every other repository as it was, and adds one only
/// where the repository was not there yet.
pub proof fn law_tracking_leaves_other_repositories(
    v: RegistryView,
    path: Seq<char>,
    identity: (Seq<char>, Seq<char>),
    key: Option<Seq<char>>,
)
    ensures
        ({
            let after = after_track(v, path, identity, key);
            &&& after.repos.len() >= v.repos.len()
            &&& after.repos.len() <= v.repos.len() + 1
            &&& (after.repos.len() == v.repos.len() + 1 ==> forall|r: int|
                0 <= r < v.repos.len() ==> (#[trigger] v.repos[r]).identity != identity)
            &&& forall|r: int|
                0 <= r < v.repos.len() ==> (#[trigger] after.repos[r]).identity == v.repos[r].identity && (v.repos[r].identity != identity
                    ==> after.repos[r] == v.repos[r])
            &&& forall|r: int, k: int|
                0 <= r < v.repos.len() && 0 <= k < v.repos[r].roots.len() ==> after.repos[r].roots[k] == (#[trigger] v.repos[r].roots[k])
        }),
{
    lemma_repo_at(v.repos, identity);
}

/// A path that is tracked already stays as it is, whatever is found there.
pub proof fn law_tracked_paths_stay(v: RegistryView, path: Seq<char>, identity: (Seq<char>, Seq<char>), key: Option<Seq<char>>)
    requires
        v.identities.dom().contains(path),
    ensures
        after_track(v, path, identity, key) == v,
{
}

proof fn lemma_without(roots: Seq<RootView>, path: Seq<char>)
    ensures
        forall|k: int| 0 <= k < without_root(roots, path).len() ==> (#[trigger] without_root(roots, path)[k]).path != path,
        forall|k: int| 0 <= k < without_root(roots, path).len() ==> roots.contains(#[trigger] without_root(roots, path)[k]),
        forall|k: int| 0 <= k < roots.len() && (#[trigger] roots[k]).path != path ==> without_root(roots, path).contains(roots[k]),
    decreases roots.len(),
{
    if roots.len() > 0 {
        let front = roots.drop_last();
        lemma_without(front, path);
        let before = without_root(front, path);
        let left = without_root(roots, path);
        assert forall|k: int| 0 <= k < left.len() implies roots.contains(#[trigger] left[k]) by {
            if k < before.len() {
                assert(left[k] == before[k]);
                assert(front.contains(before[k]));
                let j = choose|j: int| 0 <= j < front.len() && front[j] == before[k];
                assert(roots[j] == left[k]);
            } else {
                assert(roots[roots.len() - 1] == left[k]);
            }
        }
        assert forall|k: int| 0 <= k < roots.len() && (#[trigger] roots[k]).path != path implies left.contains(roots[k]) by {
            if k < front.len() {
                assert(front[k] == roots[k]);
                let j = choose|j: int| 0 <= j < before.len() && before[j] == roots[k];
                assert(left[j] == roots[k]);
            } else {
                assert(left[before.len() as int] == roots[k]);
            }
        }
    }
}

/// A path that is tracked no longer is forgotten, with its key, and its
/// repository does not have it any more; the other places of the repository
/// stay, and so does the repository while it has one. No other path changes
/// hands, and no other repository changes.
pub proof fn law_untracked_paths_are_forgotten(v: RegistryView, path: Seq<char>)
    requires
        well_kept(v),
        can_untrack(v, path),
    ensures
        ({
            let after = after_untrack(v, path);
            let at = repo_at(v.repos, identity_or_fallback(v, path));
            let others = exists|k: int| 0 <= k < v.repos[at].roots.len() && (#[trigger] v.repos[at].roots[k]).path != path;
            &&& !after.identities.dom().contains(path)
            &&& !after.keys.dom().contains(path)
            &&& forall|p: Seq<char>|
                p != path ==> (#[trigger] after.identities.dom().contains(p) <==> v.identities.dom().contains(p)) && (
                v.identities.dom().contains(p) ==> after.identities[p] == v.identities[p]) && (after.keys.dom().contains(p)
                    <==> v.keys.dom().contains(p))
            &&& others ==> after.repos.len() == v.repos.len() && after.repos[at].identity == v.repos[at].identity && !has_root(
                after.repos[at].roots,
                path,
            ) && (forall|k: int|
                0 <= k < v.repos[at].roots.len() && (#[trigger] v.repos[at].roots[k]).path != path ==> after.repos[at].roots.contains(
                    v.repos[at].roots[k],
                )) && (forall|r: int| 0 <= r < v.repos.len() && r != at ==> #[trigger] after.repos[r] == v.repos[r])
            &&& !others ==> after.repos == v.repos.remove(at)
        }),
{
    let at = repo_at(v.repos, identity_or_fallback(v, path));
    let roots = v.repos[at].roots;
    let left = without_root(roots, path);
    lemma_repo_at(v.repos, identity_or_fallback(v, path));
    lemma_without(roots, path);
    if exists|k: int| 0 <= k < roots.len() && (#[trigger] roots[k]).path != path {
        let k = choose|k: int| 0 <= k < roots.len() && (#[trigger] roots[k]).path != path;
        assert(left.contains(roots[k]));
        assert(left.len() > 0);
    } else if left.len() > 0 {
        assert(roots.contains(left[0]));
        let j = choose|j: int| 0 <= j < roots.len() && roots[j] == left[0];
        assert(roots[j].path != path);
    }
}

/// A repository that is here already is not added a second time for want of a
/// place; one that is not gets a place that is not on this host.
pub proof fn law_repositories_without_a_place_are_added_once(
    v: RegistryView,
    path: Seq<char>,
    preferred: Seq<char>,
    identity: (Seq<char>, Seq<char>),
    key: Option<Seq<char>>,
)
    ensures
        ({
            let after = after_virtual(v, path, preferred, identity, key);
            let known = exists|r: int| 0 <= r < v.repos.len() && (#[trigger] v.repos[r]).identity == identity;
            &&& known ==> after.repos == v.repos && after.identities == v.identities && (key matches Some(k) ==> after.keys == v.keys.insert(
                preferred,
                k,
            ))
            &&& !known ==> after.repos.len() == v.repos.len() + 1 && after.repos.last().identity == identity
                && after.repos.last().roots.len() == 1 && after.repos.last().roots[0].path == path && !after.repos.last().roots[0].is_local
                && after.identities == v.identities.insert(path, identity) && (forall|r: int|
                0 <= r < v.repos.len() ==> #[trigger] after.repos[r] == v.repos[r])
            &&& (key is None ==> after.keys == v.keys)
        }),
{
    lemma_repo_at(v.repos, identity);
}

/// Adding a path of which another repository is found moves it there, and
/// leaves every other path where it is.
pub proof fn law_added_paths_move_alone(v: RegistryView, path: Seq<char>, identity: (Seq<char>, Seq<char>), key: Seq<char>, other: Seq<char>)
    requires
        other != path,
    ensures
        ({
            let after = after_add(v, path, identity, key);
            &&& after.identities.dom().contains(other) <==> v.identities.dom().contains(other)
            &&& v.identities.dom().contains(other) ==> after.identities[other] == v.identities[other]
            &&& after.keys.dom().contains(other) <==> v.keys.dom().contains(other)
            &&& v.keys.dom().contains(other) ==> after.keys[other] == v.keys[other]
            &&& after.identities[path] == identity
        }),
{
}

proof fn lemma_startup(repos: Seq<StartupRepo>, path: Seq<char>)
    ensures
        after_startup(empty_registry(), repos).identities.dom().contains(path) <==> exists|i: int|
            0 <= i < repos.len() && (#[trigger] repos[i]).path@ == path,
        forall|i: int|
            0 <= i < repos.len() && (#[trigger] repos[i]).path@ == path && (forall|j: int|
                0 <= j < i ==> (#[trigger] repos[j]).path@ != path) ==> after_startup(empty_registry(), repos).identities[path]
                == repos[i].identity@,
    decreases repos.len(),
{
    if repos.len() > 0 {
        let front = repos.drop_last();
        lemma_startup(front, path);
        let n = repos.len() - 1;
        assert(repos[n] == repos.last());
        assert(forall|i: int| 0 <= i < n ==> #[trigger] repos[i] == front[i]);
        assert(forall|i: int| 0 <= i < n ==> #[trigger] front[i] == repos[i]);
        assert forall|i: int|
            0 <= i < repos.len() && (#[trigger] repos[i]).path@ == path && (forall|j: int|
                0 <= j < i ==> (#[trigger] repos[j]).path@ != path) implies after_startup(empty_registry(), repos).identities[path]
            == repos[i].identity@ by {
            if i < n {
                assert(front[i].path@ == path);
                assert forall|j: int| 0 <= j < i implies (#[trigger] front[j]).path@ != path by {
                    assert(repos[j].path@ != path);
                }
            }
        }
    }
}

/// At the start exactly the paths that are listed are tracked, each for the
/// repository that its first listing names.
pub proof fn law_listed_paths_are_tracked_at_the_start(repos: Seq<StartupRepo>, path: Seq<char>)
    ensures
        after_startup(empty_registry(), repos).identities.dom().contains(path) <==> exists|i: int|
            0 <= i < repos.len() && (#[trigger] repos[i]).path@ == path,
        forall|i: int|
            0 <= i < repos.len() && (#[trigger] repos[i]).path@ == path && (forall|j: int|
                0 <= j < i ==> (#[trigger] repos[j]).path@ != path) ==> after_startup(empty_registry(), repos).identities[path]
                == repos[i].identity@,
{
    lemma_startup(repos, path);
}

proof fn lemma_local_roots(roots: Seq<RootView>, path: Seq<char>)
    ensures
        holds(local_roots(roots), path) <==> exists|k: int|
            0 <= k < roots.len() && (#[trigger] roots[k]).path == path && roots[k].is_local,
    decreases roots.len(),
{
    if roots.len() > 0 {
        let front = roots.drop_last();
        lemma_local_roots(front, path);
        let before = local_roots(front);
        let all = local_roots(roots);
        let n = roots.len() - 1;
        assert(roots[n] == roots.last());
        if holds(all, path) {
            let i = choose|i: int| 0 <= i < all.len() && #[trigger] all[i] == path;
            if i < before.len() {
                assert(before[i] == path);
                let k = choose|k: int| 0 <= k < front.len() && (#[trigger] front[k]).path == path && front[k].is_local;
                assert(roots[k] == front[k]);
            }
        }
        if exists|k: int| 0 <= k < roots.len() && (#[trigger] roots[k]).path == path && roots[k].is_local {
            let k = choose|k: int| 0 <= k < roots.len() && (#[trigger] roots[k]).path == path && roots[k].is_local;
            if k < n {
                assert(front[k] == roots[k]);
                assert(holds(before, path));
                let i = choose|i: int| 0 <= i < before.len() && #[trigger] before[i] == path;
                assert(all[i] == path);
            } else {
                assert(all[before.len() as int] == path);
            }
        }
    }
}

/// The paths that are listed are the places of all repositories that are on
/// this host.
pub proof fn law_local_places_are_listed(repos: Seq<RepoView>, path: Seq<char>)
    ensures
        holds(paths_here(repos), path) <==> exists|r: int, k: int|
            0 <= r < repos.len() && 0 <= k < repos[r].roots.len() && (#[trigger] repos[r].roots[k]).path == path
                && repos[r].roots[k].is_local,
    decreases repos.len(),
{
    if repos.len() > 0 {
        let front = repos.drop_last();
        law_local_places_are_listed(front, path);
        let before = paths_here(front);
        let own = local_roots(repos.last().roots);
        lemma_local_roots(repos.last().roots, path);
        let all = paths_here(repos);
        let n = repos.len() - 1;
        assert(repos[n] == repos.last());
        if holds(all, path) {
            let i = choose|i: int| 0 <= i < all.len() && #[trigger] all[i] == path;
            if i < before.len() {
                assert(before[i] == path);
                let (r, k) = choose|r: int, k: int|
                    0 <= r < front.len() && 0 <= k < front[r].roots.len() && (#[trigger] front[r].roots[k]).path == path
                        && front[r].roots[k].is_local;
                assert(repos[r].roots[k].path == path);
            } else {
                assert(own[i - before.len()] == path);
                let k = choose|k: int|
                    0 <= k < repos.last().roots.len() && (#[trigger] repos.last().roots[k]).path == path && repos.last().roots[k].is_local;
                assert(repos[n].roots[k].path == path);
            }
        }
        if exists|r: int, k: int|
            0 <= r < repos.len() && 0 <= k < repos[r].roots.len() && (#[trigger] repos[r].roots[k]).path == path
                && repos[r].roots[k].is_local {
            let (r, k) = choose|r: int, k: int|
                0 <= r < repos.len() && 0 <= k < repos[r].roots.len() && (#[trigger] repos[r].roots[k]).path == path
                    && repos[r].roots[k].is_local;
            if r < n {
                assert(front[r].roots[k].path == path);
                assert(holds(before, path));
                let i = choose|i: int| 0 <= i < before.len() && #[trigger] before[i] == path;
                assert(all[i] == path);
            } else {
                assert(repos.last().roots[k].path == path);
                assert(holds(own, path));
                let i = choose|i: int| 0 <= i < own.len() && #[trigger] own[i] == path;
                assert(all[before.len() + i] == path);
            }
        }
    }
}

/// A repository that is picked by its path has to be tracked there; one that
/// is picked otherwise is the one that was found.
pub proof fn law_repositories_are_picked_among_those_tracked(v: RegistryView, selector: RepoSelector)
    ensures
        selector matches RepoSelector::Path { path } ==> (selected_path(v, selector) is Ok <==> v.identities.dom().contains(path@)) && (
        selected_path(v, selector) matches Ok(found) ==> found == path@),
        selector matches RepoSelector::Identity { shown, preferred } ==> (match preferred {
            Some(path) => selected_path(v, selector) == Ok::<Seq<char>, Seq<char>>(path@),
            None => selected_path(v, selector) is Err,
        }),
        selector matches RepoSelector::Query { resolved } ==> (match resolved {
            Ok(path) => selected_path(v, selector) == Ok::<Seq<char>, Seq<char>>(path@),
            Err(e) => selected_path(v, selector) == Err::<Seq<char>, Seq<char>>(e@),
        }),
{
}

/// Whether a checkout is one that a selector may mean: one in scope, by its
/// exact path, or by a text that its branch or its path has in it.
pub open spec fn answers(checkout: CheckoutReading, selector: CheckoutSelector) -> bool {
    checkout.in_scope && match selector {
        CheckoutSelector::Path { path } => checkout.path@ == path@,
        CheckoutSelector::Query { query } => checkout.branch@ == query@ || has_text(checkout.branch@, query@) || has_text(
            checkout.path@,
            query@,
        ),
    }
}

/// The checkouts that a selector means are those in scope that answer to it,
/// each once and in order.
pub proof fn law_checkouts_are_meant_by_path_or_text(checkouts: Seq<CheckoutReading>, selector: CheckoutSelector, i: int)
    ensures
        forall|k: int| 0 <= k < meant(checkouts, selector).len() ==> 0 <= #[trigger] meant(checkouts, selector)[k] < checkouts.len() && answers(
            checkouts[meant(checkouts, selector)[k]],
            selector,
        ),
        0 <= i < checkouts.len() && answers(checkouts[i], selector) ==> exists|k: int|
            0 <= k < meant(checkouts, selector).len() && #[trigger] meant(checkouts, selector)[k] == i,
        forall|j: int, k: int| 0 <= j < k < meant(checkouts, selector).len() ==> #[trigger] meant(checkouts, selector)[j] < #[trigger] meant(
            checkouts,
            selector,
        )[k],
    decreases checkouts.len(),
{
    if checkouts.len() > 0 {
        let front = checkouts.drop_last();
        law_checkouts_are_meant_by_path_or_text(front, selector, i);
        let before = meant(front, selector);
        let all = meant(checkouts, selector);
        assert(forall|k: int| 0 <= k < before.len() ==> #[trigger] all[k] == before[k]);
        assert forall|k: int| 0 <= k < all.len() implies 0 <= #[trigger] all[k] < checkouts.len() && answers(checkouts[all[k]], selector) by {
            if k < before.len() {
                assert(front[before[k]] == checkouts[before[k]]);
            }
        }
        if 0 <= i < checkouts.len() && answers(checkouts[i], selector) {
            if i < front.len() {
                assert(front[i] == checkouts[i]);
                let k = choose|k: int| 0 <= k < before.len() && #[trigger] before[k] == i;
                assert(all[k] == i);
            } else {
                assert(all[before.len() as int] == i);
            }
        }
        assert forall|j: int, k: int| 0 <= j < k < all.len() implies #[trigger] all[j] < #[trigger] all[k] by {
            if k < before.len() {
                assert(before[j] < before[k]);
            } else {
                assert(before[j] < front.len());
            }
        }
    }
}

/// A command that names its repository is for that; one that needs the
/// repository at hand is refused without one, and one on a checkout falls back
/// to that of the checkout.
pub proof fn law_commands_find_their_repository(need: RepoNeed, has_context: bool)
    ensures
        need is Named ==> lookup_of(need, has_context) == Ok::<RepoLookup, Seq<char>>(RepoLookup::Command),
        need is Context ==> (lookup_of(need, has_context) is Ok <==> has_context),
        need is Context && has_context ==> lookup_of(need, has_context) == Ok::<RepoLookup, Seq<char>>(RepoLookup::Context),
        need is ContextOrCheckout ==> lookup_of(need, has_context) == Ok::<RepoLookup, Seq<char>>(
            if has_context {
                RepoLookup::Context
            } else {
                RepoLookup::Checkout
            },
        ),
        need is NoSingle ==> lookup_of(need, has_context) is Err,
{
}

/// A change request is merged only where the repository is known not to be a
/// fork.
pub proof fn law_forks_are_not_merged_into(id: Seq<char>, stance: StanceReading)
    ensures
        merge_problem(id, stance) is None <==> (stance matches StanceReading::Known { is_fork } && !is_fork),
{
}

} // verus!
