//! The repositories that a daemon tracks: by identity, in the order they came,
//! each with the paths it is tracked at.
use vstd::prelude::*;

use crate::ordered::{text_map, OrderedMap};
use crate::text::{concat2, concat3, concat4, has_text, opt, str_eq, str_has_text, strs};

verus! {

/// Who a repository is: a forge, or something local, and a path there.
#[derive(Debug, PartialEq, Eq)]
pub struct RepoIdentity {
    pub authority: String,
    pub path: String,
}

impl View for RepoIdentity {
    type V = (Seq<char>, Seq<char>);

    open spec fn view(&self) -> (Seq<char>, Seq<char>) {
        (self.authority@, self.path@)
    }
}

impl RepoIdentity {
    pub fn copy(&self) -> (r: Self)
        ensures
            r == *self,
    {
        RepoIdentity { authority: self.authority.clone(), path: self.path.clone() }
    }

    pub fn same(&self, other: &RepoIdentity) -> (r: bool)
        ensures
            r == (self@ == other@),
    {
        str_eq(self.authority.as_str(), other.authority.as_str()) && str_eq(self.path.as_str(), other.path.as_str())
    }
}

/// The identity of a repository of which nothing but a path is known.
pub fn fallback_repo_identity(path: &str) -> (r: RepoIdentity)
    ensures
        r@ == ("local"@, path@),
{
    RepoIdentity { authority: "local".to_owned(), path: path.to_owned() }
}

/// The identity that stands for no repository at all.
pub fn empty_repo_identity() -> (r: RepoIdentity)
    ensures
        r@ == (""@, ""@),
{
    RepoIdentity { authority: "".to_owned(), path: "".to_owned() }
}

/// The identity of a repository: what its configuration says, else what was
/// found out about it, else its path.
pub fn configured_repo_identity(configured: &Option<RepoIdentity>, found: &Option<RepoIdentity>, path: &str) -> (r: RepoIdentity)
    ensures
        r@ == match (*configured, *found) {
            (Some(i), _) => i@,
            (None, Some(i)) => i@,
            (None, None) => ("local"@, path@),
        },
{
    match configured {
        Some(i) => i.copy(),
        None => match found {
            Some(i) => i.copy(),
            None => fallback_repo_identity(path),
        },
    }
}

/// A path that a repository is tracked at.
#[derive(Debug, PartialEq, Eq)]
pub struct RepoRoot {
    pub path: String,
    pub is_local: bool,
}

/// A repository and the paths it is tracked at.
#[derive(Debug, PartialEq, Eq)]
pub struct TrackedRepo {
    pub identity: RepoIdentity,
    pub roots: Vec<RepoRoot>,
}

pub struct RootView {
    pub path: Seq<char>,
    pub is_local: bool,
}

pub struct RepoView {
    pub identity: (Seq<char>, Seq<char>),
    pub roots: Seq<RootView>,
}

impl View for RepoRoot {
    type V = RootView;

    open spec fn view(&self) -> RootView {
        RootView { path: self.path@, is_local: self.is_local }
    }
}

impl View for TrackedRepo {
    type V = RepoView;

    open spec fn view(&self) -> RepoView {
        RepoView { identity: self.identity@, roots: root_views(self.roots@) }
    }
}

pub open spec fn root_views(roots: Seq<RepoRoot>) -> Seq<RootView> {
    Seq::new(roots.len(), |i: int| roots[i]@)
}

/// What a daemon tracks, by value: the repositories in order, the identity of
/// each path, and the storage key of each path.
pub struct RegistryView {
    pub repos: Seq<RepoView>,
    pub identities: Map<Seq<char>, (Seq<char>, Seq<char>)>,
    pub keys: Map<Seq<char>, Seq<char>>,
}

/// The paths of the roots that are on this host.
pub open spec fn local_roots(roots: Seq<RootView>) -> Seq<Seq<char>>
    decreases roots.len(),
{
    if roots.len() == 0 {
        Seq::empty()
    } else if roots.last().is_local {
        local_roots(roots.drop_last()).push(roots.last().path)
    } else {
        local_roots(roots.drop_last())
    }
}

/// The paths on this host that repositories are tracked at.
pub open spec fn paths_here(repos: Seq<RepoView>) -> Seq<Seq<char>>
    decreases repos.len(),
{
    if repos.len() == 0 {
        Seq::empty()
    } else {
        paths_here(repos.drop_last()) + local_roots(repos.last().roots)
    }
}

/// Nothing is tracked.
pub open spec fn empty_registry() -> RegistryView {
    RegistryView { repos: Seq::empty(), identities: Map::empty(), keys: Map::empty() }
}

/// Where the repository of an identity stands, or the number of repositories.
pub open spec fn repo_at(repos: Seq<RepoView>, identity: (Seq<char>, Seq<char>)) -> int
    decreases repos.len(),
{
    if repos.len() == 0 || repos[0].identity == identity {
        0
    } else {
        1 + repo_at(repos.drop_first(), identity)
    }
}

/// Whether a repository is tracked at a path.
pub open spec fn has_root(roots: Seq<RootView>, path: Seq<char>) -> bool {
    exists|i: int| 0 <= i < roots.len() && (#[trigger] roots[i]).path == path
}

/// The roots without those at a path.
pub open spec fn without_root(roots: Seq<RootView>, path: Seq<char>) -> Seq<RootView>
    decreases roots.len(),
{
    if roots.len() == 0 {
        Seq::empty()
    } else if roots.last().path == path {
        without_root(roots.drop_last(), path)
    } else {
        without_root(roots.drop_last(), path).push(roots.last())
    }
}

/// Whether some root is local.
pub open spec fn has_local(roots: Seq<RootView>) -> bool {
    exists|i: int| 0 <= i < roots.len() && (#[trigger] roots[i]).is_local
}

/// A root is put behind the others of its repository; a new repository comes
/// last.
pub open spec fn with_root(repos: Seq<RepoView>, identity: (Seq<char>, Seq<char>), root: RootView) -> Seq<RepoView> {
    let at = repo_at(repos, identity);
    if at < repos.len() {
        repos.update(at, RepoView { identity, roots: repos[at].roots.push(root) })
    } else {
        repos.push(RepoView { identity, roots: seq![root] })
    }
}

/// Every identity is there once and has a path, and what a path is known as is
/// tracked there.
pub open spec fn well_kept(v: RegistryView) -> bool {
    &&& forall|i: int, j: int|
        0 <= i < j < v.repos.len() ==> (#[trigger] v.repos[i]).identity != (#[trigger] v.repos[j]).identity
    &&& forall|i: int| 0 <= i < v.repos.len() ==> (#[trigger] v.repos[i]).roots.len() > 0
    &&& forall|p: Seq<char>| #[trigger]
        v.identities.dom().contains(p) ==> {
            let at = repo_at(v.repos, v.identities[p]);
            at < v.repos.len() && has_root(v.repos[at].roots, p)
        }
}

/// What is tracked once a path is added. A path that is already tracked stays
/// as it is.
pub open spec fn after_track(
    v: RegistryView,
    path: Seq<char>,
    identity: (Seq<char>, Seq<char>),
    key: Option<Seq<char>>,
) -> RegistryView {
    if v.identities.dom().contains(path) {
        v
    } else {
        RegistryView {
            repos: with_root(v.repos, identity, RootView { path, is_local: true }),
            identities: v.identities.insert(path, identity),
            keys: match key {
                Some(key) => v.keys.insert(path, key),
                None => v.keys,
            },
        }
    }
}

/// What is tracked once a repository without a local path is added. Of one
/// that is tracked only the key may become known, at its preferred path.
pub open spec fn after_virtual(
    v: RegistryView,
    path: Seq<char>,
    preferred: Seq<char>,
    identity: (Seq<char>, Seq<char>),
    key: Option<Seq<char>>,
) -> RegistryView {
    if repo_at(v.repos, identity) < v.repos.len() {
        RegistryView {
            keys: match key {
                Some(key) => v.keys.insert(preferred, key),
                None => v.keys,
            },
            ..v
        }
    } else {
        RegistryView {
            repos: v.repos.push(RepoView { identity, roots: seq![RootView { path, is_local: false }] }),
            identities: v.identities.insert(path, identity),
            keys: match key {
                Some(key) => v.keys.insert(path, key),
                None => v.keys,
            },
        }
    }
}

/// The identity of a path; the fallback where it is not tracked.
pub open spec fn identity_or_fallback(v: RegistryView, path: Seq<char>) -> (Seq<char>, Seq<char>) {
    if v.identities.dom().contains(path) {
        v.identities[path]
    } else {
        ("local"@, path)
    }
}

/// Whether a path can be removed.
pub open spec fn can_untrack(v: RegistryView, path: Seq<char>) -> bool {
    let at = repo_at(v.repos, identity_or_fallback(v, path));
    at < v.repos.len() && has_root(v.repos[at].roots, path)
}

/// What is tracked once a path is removed. A repository goes with its last
/// path.
pub open spec fn after_untrack(v: RegistryView, path: Seq<char>) -> RegistryView {
    let at = repo_at(v.repos, identity_or_fallback(v, path));
    let roots = without_root(v.repos[at].roots, path);
    RegistryView {
        repos: if roots.len() == 0 {
            v.repos.remove(at)
        } else {
            v.repos.update(at, RepoView { identity: v.repos[at].identity, roots })
        },
        identities: v.identities.remove(path),
        keys: v.keys.remove(path),
    }
}

pub proof fn lemma_repo_at(repos: Seq<RepoView>, identity: (Seq<char>, Seq<char>))
    ensures
        0 <= repo_at(repos, identity) <= repos.len(),
        repo_at(repos, identity) < repos.len() ==> repos[repo_at(repos, identity)].identity == identity,
        forall|i: int| 0 <= i < repo_at(repos, identity) ==> (#[trigger] repos[i]).identity != identity,
    decreases repos.len(),
{
    if repos.len() > 0 && repos[0].identity != identity {
        let rest = repos.drop_first();
        lemma_repo_at(rest, identity);
        assert forall|i: int| 0 <= i < repo_at(repos, identity) implies (#[trigger] repos[i]).identity != identity by {
            if i > 0 {
                assert(rest[i - 1] == repos[i]);
            }
        }
    }
}

proof fn lemma_repo_at_is(repos: Seq<RepoView>, identity: (Seq<char>, Seq<char>), at: int)
    requires
        0 <= at <= repos.len(),
        at < repos.len() ==> repos[at].identity == identity,
        forall|i: int| 0 <= i < at ==> (#[trigger] repos[i]).identity != identity,
    ensures
        repo_at(repos, identity) == at,
{
    lemma_repo_at(repos, identity);
    let x = repo_at(repos, identity);
    if x < at {
        assert(repos[x].identity != identity);
    }
    if at < x {
        assert(repos[at].identity != identity);
    }
}

proof fn lemma_without_root(roots: Seq<RootView>, path: Seq<char>)
    ensures
        without_root(roots, path).len() <= roots.len(),
        has_root(roots, path) ==> without_root(roots, path).len() < roots.len(),
        !has_root(roots, path) ==> without_root(roots, path) == roots,
        forall|p: Seq<char>| p != path && has_root(roots, p) ==> #[trigger] has_root(without_root(roots, path), p),
    decreases roots.len(),
{
    if roots.len() > 0 {
        let front = roots.drop_last();
        lemma_without_root(front, path);
        let out = without_root(roots, path);
        let cut = without_root(front, path);
        if has_root(roots, path) && roots.last().path != path {
            let i = choose|i: int| 0 <= i < roots.len() && (#[trigger] roots[i]).path == path;
            assert(front[i].path == path);
        }
        if !has_root(roots, path) {
            assert(roots[roots.len() - 1].path != path);
            assert(!has_root(front, path)) by {
                if has_root(front, path) {
                    let i = choose|i: int| 0 <= i < front.len() && (#[trigger] front[i]).path == path;
                    assert(roots[i].path == path);
                }
            }
            assert(out =~= roots);
        }
        assert forall|p: Seq<char>| p != path && has_root(roots, p) implies #[trigger] has_root(out, p) by {
            let i = choose|i: int| 0 <= i < roots.len() && (#[trigger] roots[i]).path == p;
            if i < front.len() {
                assert(front[i].path == p);
                assert(has_root(cut, p));
                let j = choose|j: int| 0 <= j < cut.len() && (#[trigger] cut[j]).path == p;
                assert(out[j].path == p);
            } else {
                assert(out[out.len() - 1].path == p);
            }
        }
    } else {
        assert(without_root(roots, path) =~= roots);
    }
}

proof fn lemma_track_keeps(
    v: RegistryView,
    path: Seq<char>,
    identity: (Seq<char>, Seq<char>),
    root: RootView,
    keys: Map<Seq<char>, Seq<char>>,
)
    requires
        well_kept(v),
        root.path == path,
    ensures
        well_kept(
            RegistryView {
                repos: with_root(v.repos, identity, root),
                identities: v.identities.insert(path, identity),
                keys,
            },
        ),
{
    let at = repo_at(v.repos, identity);
    lemma_repo_at(v.repos, identity);
    let repos = with_root(v.repos, identity, root);
    let ids = v.identities.insert(path, identity);
    assert forall|i: int, j: int| 0 <= i < j < repos.len() implies (#[trigger] repos[i]).identity != (
    #[trigger] repos[j]).identity by {
        if i < v.repos.len() {
            assert(repos[i].identity == v.repos[i].identity);
        }
        if j < v.repos.len() {
            assert(repos[j].identity == v.repos[j].identity);
        }
    }
    assert forall|p: Seq<char>| #[trigger] ids.dom().contains(p) implies ({
        let x = repo_at(repos, ids[p]);
        x < repos.len() && has_root(repos[x].roots, p)
    }) by {
        if p == path {
            lemma_repo_at_is(repos, identity, at);
            let roots = repos[at].roots;
            assert(roots[roots.len() - 1].path == path);
        } else {
            let x = repo_at(v.repos, v.identities[p]);
            lemma_repo_at(v.repos, v.identities[p]);
            assert(v.identities.dom().contains(p));
            assert forall|i: int| 0 <= i < x implies (#[trigger] repos[i]).identity != ids[p] by {
                assert(repos[i].identity == v.repos[i].identity);
            }
            lemma_repo_at_is(repos, ids[p], x);
            let i = choose|i: int| 0 <= i < v.repos[x].roots.len() && (#[trigger] v.repos[x].roots[i]).path == p;
            assert(repos[x].roots[i].path == p);
        }
    }
}

proof fn lemma_untrack_keeps(v: RegistryView, path: Seq<char>)
    requires
        well_kept(v),
        can_untrack(v, path),
    ensures
        well_kept(after_untrack(v, path)),
{
    let id = identity_or_fallback(v, path);
    let at = repo_at(v.repos, id);
    lemma_repo_at(v.repos, id);
    let roots = without_root(v.repos[at].roots, path);
    lemma_without_root(v.repos[at].roots, path);
    let w = after_untrack(v, path);
    assert forall|p: Seq<char>| #[trigger] w.identities.dom().contains(p) implies ({
        let x = repo_at(w.repos, w.identities[p]);
        x < w.repos.len() && has_root(w.repos[x].roots, p)
    }) by {
        let who = v.identities[p];
        assert(v.identities.dom().contains(p));
        let x = repo_at(v.repos, who);
        lemma_repo_at(v.repos, who);
        if x == at {
            assert(has_root(roots, p));
            assert(roots.len() > 0);
            assert forall|i: int| 0 <= i < x implies (#[trigger] w.repos[i]).identity != who by {
                assert(w.repos[i].identity == v.repos[i].identity);
            }
            lemma_repo_at_is(w.repos, who, x);
        } else if roots.len() > 0 {
            assert forall|i: int| 0 <= i < x implies (#[trigger] w.repos[i]).identity != who by {
                assert(w.repos[i].identity == v.repos[i].identity);
            }
            lemma_repo_at_is(w.repos, who, x);
        } else {
            let y = if x < at {
                x
            } else {
                x - 1
            };
            assert forall|i: int| 0 <= i < y implies (#[trigger] w.repos[i]).identity != who by {
                let z = if i < at {
                    i
                } else {
                    i + 1
                };
                assert(w.repos[i] == v.repos[z]);
            }
            assert(w.repos[y] == v.repos[x]);
            lemma_repo_at_is(w.repos, who, y);
        }
    }
    assert forall|i: int, j: int| 0 <= i < j < w.repos.len() implies (#[trigger] w.repos[i]).identity != (
    #[trigger] w.repos[j]).identity by {
        if roots.len() == 0 {
            let x = if i < at {
                i
            } else {
                i + 1
            };
            let y = if j < at {
                j
            } else {
                j + 1
            };
            assert(w.repos[i] == v.repos[x] && w.repos[j] == v.repos[y]);
        } else {
            assert(w.repos[i].identity == v.repos[i].identity);
            assert(w.repos[j].identity == v.repos[j].identity);
        }
    }
    assert forall|i: int| 0 <= i < w.repos.len() implies (#[trigger] w.repos[i]).roots.len() > 0 by {
        if roots.len() == 0 {
            let x = if i < at {
                i
            } else {
                i + 1
            };
            assert(w.repos[i] == v.repos[x]);
        } else if i != at {
            assert(w.repos[i] == v.repos[i]);
        }
    }
}

/// What became of a path that was removed.
#[derive(Debug, Clone, Copy, PartialEq, Eq, Structural)]
pub struct Untracked {
    /// Whether its repository is gone with it.
    pub removed_identity: bool,
    /// Whether the repository has no local path any more.
    pub removed_final_local_root: bool,
}

/// What became of a repository without a local path.
#[derive(Debug, Clone, Copy, PartialEq, Eq, Structural)]
pub enum VirtualStep {
    Added,
    /// It was tracked already; its key may have become known or changed.
    Existing { key_became_available: bool },
}

/// What a daemon tracks.
#[derive(Debug)]
pub struct RepoRegistry {
    repos: Vec<TrackedRepo>,
    identities: OrderedMap<RepoIdentity>,
    keys: OrderedMap<String>,
}

spec fn repo_views(repos: Seq<TrackedRepo>) -> Seq<RepoView> {
    Seq::new(repos.len(), |i: int| repos[i]@)
}

spec fn identity_views(m: Map<Seq<char>, RepoIdentity>) -> Map<Seq<char>, (Seq<char>, Seq<char>)> {
    m.map_values(|i: RepoIdentity| i@)
}

impl View for RepoRegistry {
    type V = RegistryView;

    closed spec fn view(&self) -> RegistryView {
        RegistryView {
            repos: repo_views(self.repos@),
            identities: identity_views(self.identities@),
            keys: text_map(self.keys@),
        }
    }
}

impl RepoRegistry {
    pub fn new() -> (r: Self)
        ensures
            r@ == empty_registry(),
            well_kept(r@),
    {
        let r = RepoRegistry { repos: Vec::new(), identities: OrderedMap::new(), keys: OrderedMap::new() };
        assert(r@.repos =~= Seq::<RepoView>::empty());
        assert(r@.identities =~= Map::<Seq<char>, (Seq<char>, Seq<char>)>::empty());
        assert(r@.keys =~= Map::<Seq<char>, Seq<char>>::empty());
        r
    }

    fn find(&self, identity: &RepoIdentity) -> (r: usize)
        ensures
            r == repo_at(self@.repos, identity@),
            r <= self.repos@.len(),
    {
        let ghost all = self@.repos;
        let mut i: usize = 0;
        while i < self.repos.len()
            invariant
                i <= self.repos@.len(),
                all == repo_views(self.repos@),
                forall|k: int| 0 <= k < i ==> (#[trigger] all[k]).identity != identity@,
            decreases self.repos.len() - i,
        {
            assert(all[i as int] == self.repos@[i as int]@);
            if self.repos[i].identity.same(identity) {
                proof {
                    lemma_repo_at_is(all, identity@, i as int);
                }
                return i;
            }
            i = i + 1;
        }
        proof {
            lemma_repo_at_is(all, identity@, all.len() as int);
        }
        i
    }

    /// The identity of a tracked path.
    pub fn tracked_repo_identity_for_path(&self, path: &str) -> (r: Option<RepoIdentity>)
        ensures
            match r {
                Some(i) => self@.identities.dom().contains(path@) && self@.identities[path@] == i@,
                None => !self@.identities.dom().contains(path@),
            },
    {
        match self.identities.get(path) {
            Some(i) => Some(i.copy()),
            None => None,
        }
    }

    /// The storage key of a tracked path, where it is known.
    pub fn repository_key_for_path(&self, path: &str) -> (r: Option<String>)
        ensures
            match r {
                Some(k) => self@.keys.dom().contains(path@) && self@.keys[path@] == k@,
                None => !self@.keys.dom().contains(path@),
            },
    {
        match self.keys.get(path) {
            Some(k) => Some(k.clone()),
            None => None,
        }
    }

    pub fn len(&self) -> (r: usize)
        ensures
            r == self@.repos.len(),
    {
        self.repos.len()
    }

    /// The `i`-th repository, in the order they came.
    pub fn repo(&self, i: usize) -> (r: &TrackedRepo)
        requires
            i < self@.repos.len(),
        ensures
            r@ == self@.repos[i as int],
    {
        assert(self@.repos[i as int] == self.repos@[i as int]@);
        &self.repos[i]
    }

    /// Whether a repository of the identity is tracked, and where it stands.
    pub fn position(&self, identity: &RepoIdentity) -> (r: Option<usize>)
        ensures
            match r {
                Some(i) => i < self@.repos.len() && repo_at(self@.repos, identity@) == i,
                None => repo_at(self@.repos, identity@) == self@.repos.len(),
            },
    {
        let at = self.find(identity);
        if at < self.repos.len() {
            Some(at)
        } else {
            None
        }
    }

    /// Every path on this host that a repository is tracked at.
    pub fn tracked_repo_paths(&self) -> (r: Vec<String>)
        ensures
            strs(r@) == paths_here(self@.repos),
    {
        let ghost all = self@.repos;
        let mut r: Vec<String> = Vec::new();
        let mut i: usize = 0;
        assert(strs(r@) =~= paths_here(all.take(0)));
        while i < self.repos.len()
            invariant
                i <= self.repos@.len(),
                all == repo_views(self.repos@),
                strs(r@) == paths_here(all.take(i as int)),
            decreases self.repos.len() - i,
        {
            let roots = &self.repos[i].roots;
            let ghost before = strs(r@);
            let ghost views = root_views(roots@);
            assert(all.take(i + 1).drop_last() =~= all.take(i as int));
            assert(all.take(i + 1).last() == self.repos@[i as int]@);
            let mut k: usize = 0;
            assert(before + local_roots(views.take(0)) =~= before);
            while k < roots.len()
                invariant
                    k <= roots@.len(),
                    views == root_views(roots@),
                    strs(r@) == before + local_roots(views.take(k as int)),
                decreases roots.len() - k,
            {
                assert(views.take(k + 1).drop_last() =~= views.take(k as int));
                assert(views.take(k + 1).last() == roots@[k as int]@);
                if roots[k].is_local {
                    let ghost was = strs(r@);
                    r.push(roots[k].path.clone());
                    assert(strs(r@) =~= was.push(roots@[k as int].path@));
                }
                assert(strs(r@) =~= before + local_roots(views.take(k + 1)));
                k = k + 1;
            }
            assert(views.take(views.len() as int) =~= views);
            i = i + 1;
        }
        assert(all.take(all.len() as int) =~= all);
        r
    }

    /// Says what the key of a path is; `changed` if it was not that before.
    pub fn set_repository_key(&mut self, path: &str, key: &str) -> (changed: bool)
        requires
            well_kept(old(self)@),
        ensures
            final(self)@ == (RegistryView { keys: old(self)@.keys.insert(path@, key@), ..old(self)@ }),
            changed == !(old(self)@.keys.dom().contains(path@) && old(self)@.keys[path@] == key@),
            well_kept(final(self)@),
    {
        let changed = match self.keys.get(path) {
            Some(held) => !str_eq(held.as_str(), key),
            None => true,
        };
        let ghost before = self.keys@;
        self.keys.insert(path.to_owned(), key.to_owned());
        assert(text_map(self.keys@) =~= text_map(before).insert(path@, key@));
        changed
    }

    fn put_root(&mut self, identity: &RepoIdentity, path: &str, is_local: bool) -> (new_identity: bool)
        ensures
            final(self)@.repos == with_root(old(self)@.repos, identity@, (RootView { path: path@, is_local })),
            new_identity == (repo_at(old(self)@.repos, identity@) == old(self)@.repos.len()),
            final(self).identities == old(self).identities,
            final(self).keys == old(self).keys,
    {
        let ghost before = self@.repos;
        let at = self.find(identity);
        let root = RepoRoot { path: path.to_owned(), is_local };
        proof {
            lemma_repo_at(before, identity@);
        }
        if at < self.repos.len() {
            assert(before[at as int] == self.repos@[at as int]@);
            let ghost was = self.repos@;
            let mut repo = self.repos.remove(at);
            let ghost held = repo.roots@;
            repo.roots.push(root);
            assert(root_views(repo.roots@) =~= root_views(held).push(root@));
            self.repos.insert(at, repo);
            assert(self.repos@ =~= was.update(at as int, repo));
            assert(self@.repos =~= with_root(before, identity@, root@));
            false
        } else {
            let mut roots: Vec<RepoRoot> = Vec::new();
            roots.push(root);
            assert(root_views(roots@) =~= seq![root@]);
            let repo = TrackedRepo { identity: identity.copy(), roots };
            self.repos.push(repo);
            assert(self@.repos =~= before.push(repo@));
            true
        }
    }

    /// Tracks a local path. Says whether its repository is new here.
    pub fn track(&mut self, path: &str, identity: &RepoIdentity, key: &Option<String>) -> (new_identity: bool)
        requires
            well_kept(old(self)@),
        ensures
            final(self)@ == after_track(old(self)@, path@, identity@, opt(*key)),
            new_identity == (!old(self)@.identities.dom().contains(path@) && repo_at(old(self)@.repos, identity@)
                == old(self)@.repos.len()),
            well_kept(final(self)@),
    {
        if self.identities.contains_key(path) {
            return false;
        }
        let ghost before = self@;
        let fresh = self.put_root(identity, path, true);
        let ghost ids = self.identities@;
        self.identities.insert(path.to_owned(), identity.copy());
        assert(identity_views(self.identities@) =~= identity_views(ids).insert(path@, identity@));
        match key {
            Some(key) => {
                let ghost held = self.keys@;
                self.keys.insert(path.to_owned(), key.clone());
                assert(text_map(self.keys@) =~= text_map(held).insert(path@, key@));
            },
            None => {},
        }
        proof {
            lemma_track_keeps(before, path@, identity@, RootView { path: path@, is_local: true }, self@.keys);
        }
        fresh
    }

    /// Tracks a repository that has no local path, under a path made up for it.
    pub fn add_virtual_repo(
        &mut self,
        identity: &RepoIdentity,
        key: &Option<String>,
        synthetic_path: &str,
        preferred_path: &str,
    ) -> (r: VirtualStep)
        requires
            well_kept(old(self)@),
        ensures
            final(self)@ == after_virtual(old(self)@, synthetic_path@, preferred_path@, identity@, opt(*key)),
            r == if repo_at(old(self)@.repos, identity@) < old(self)@.repos.len() {
                VirtualStep::Existing {
                    key_became_available: *key is Some && !(old(self)@.keys.dom().contains(preferred_path@)
                        && old(self)@.keys[preferred_path@] == opt(*key)->0),
                }
            } else {
                VirtualStep::Added
            },
            well_kept(final(self)@),
    {
        let at = self.find(identity);
        if at < self.repos.len() {
            return match key {
                Some(key) => {
                    let changed = self.set_repository_key(preferred_path, key.as_str());
                    VirtualStep::Existing { key_became_available: changed }
                },
                None => VirtualStep::Existing { key_became_available: false },
            };
        }
        let ghost before = self@;
        let _fresh = self.put_root(identity, synthetic_path, false);
        let ghost ids = self.identities@;
        self.identities.insert(synthetic_path.to_owned(), identity.copy());
        assert(identity_views(self.identities@) =~= identity_views(ids).insert(synthetic_path@, identity@));
        match key {
            Some(key) => {
                let ghost held = self.keys@;
                self.keys.insert(synthetic_path.to_owned(), key.clone());
                assert(text_map(self.keys@) =~= text_map(held).insert(synthetic_path@, key@));
            },
            None => {},
        }
        proof {
            lemma_track_keeps(
                before,
                synthetic_path@,
                identity@,
                RootView { path: synthetic_path@, is_local: false },
                self@.keys,
            );
        }
        VirtualStep::Added
    }

    /// Stops tracking a path.
    pub fn remove_repo(&mut self, path: &str) -> (r: Result<Untracked, String>)
        requires
            well_kept(old(self)@),
        ensures
            match r {
                Ok(u) => {
                    let v = old(self)@;
                    let at = repo_at(v.repos, identity_or_fallback(v, path@));
                    let roots = without_root(v.repos[at].roots, path@);
                    &&& can_untrack(v, path@)
                    &&& final(self)@ == after_untrack(v, path@)
                    &&& u.removed_identity == (roots.len() == 0)
                    &&& u.removed_final_local_root == !has_local(roots)
                },
                Err(e) => !can_untrack(old(self)@, path@) && e@ == "repo not tracked: "@ + path@ && final(self)@ == old(
                    self,
                )@,
            },
            well_kept(final(self)@),
    {
        let ghost v = self@;
        let identity = match self.identities.get(path) {
            Some(i) => i.copy(),
            None => fallback_repo_identity(path),
        };
        let at = self.find(&identity);
        if at >= self.repos.len() {
            return Err(concat2("repo not tracked: ", path));
        }
        assert(v.repos[at as int] == self.repos@[at as int]@);
        let mut kept: Vec<RepoRoot> = Vec::new();
        let mut local = false;
        let mut found = false;
        let roots = &self.repos[at].roots;
        let ghost all = root_views(roots@);
        let mut i: usize = 0;
        assert(root_views(kept@) =~= without_root(all.take(0), path@));
        while i < roots.len()
            invariant
                i <= roots@.len(),
                all == root_views(roots@),
                root_views(kept@) == without_root(all.take(i as int), path@),
                found == exists|k: int| 0 <= k < i && (#[trigger] all[k]).path == path@,
                local == has_local(root_views(kept@)),
            decreases roots.len() - i,
        {
            assert(all.take(i + 1).drop_last() =~= all.take(i as int));
            assert(all.take(i + 1).last() == roots@[i as int]@);
            assert(all[i as int] == roots@[i as int]@);
            if str_eq(roots[i].path.as_str(), path) {
                found = true;
            } else {
                let ghost was = root_views(kept@);
                let root = RepoRoot { path: roots[i].path.clone(), is_local: roots[i].is_local };
                kept.push(root);
                assert(root_views(kept@) =~= was.push(root@));
                proof {
                    let now = root_views(kept@);
                    if has_local(was) {
                        let k = choose|k: int| 0 <= k < was.len() && (#[trigger] was[k]).is_local;
                        assert(now[k].is_local);
                    }
                    if has_local(now) {
                        let k = choose|k: int| 0 <= k < now.len() && (#[trigger] now[k]).is_local;
                        if k < was.len() {
                            assert(was[k].is_local);
                        }
                    }
                    assert(now[now.len() - 1] == root@);
                }
                if roots[i].is_local {
                    local = true;
                }
            }
            i = i + 1;
        }
        assert(all.take(all.len() as int) =~= all);
        if !found {
            return Err(concat2("repo not tracked: ", path));
        }
        proof {
            lemma_untrack_keeps(v, path@);
            lemma_repo_at(v.repos, identity@);
        }
        let gone = kept.len() == 0;
        let ghost was = self.repos@;
        let ghost cut = root_views(kept@);
        let mut repo = self.repos.remove(at);
        if !gone {
            repo.roots = kept;
            self.repos.insert(at, repo);
            assert(self.repos@ =~= was.update(at as int, repo));
            assert(self@.repos =~= v.repos.update(at as int, RepoView { identity: v.repos[at as int].identity, roots: cut }));
        } else {
            assert(self@.repos =~= v.repos.remove(at as int));
        }
        let ghost ids = self.identities@;
        let _known = self.identities.remove(path);
        assert(identity_views(self.identities@) =~= identity_views(ids).remove(path@));
        let ghost held = self.keys@;
        let _keyed = self.keys.remove(path);
        assert(text_map(self.keys@) =~= text_map(held).remove(path@));
        Ok(Untracked { removed_identity: gone, removed_final_local_root: !local })
    }

    /// Tracks a path as a repository. One that is tracked as another
    /// repository leaves that first.
    pub fn add_repo(&mut self, path: &str, identity: &RepoIdentity, key: &str) -> (r: AddedRepo)
        requires
            well_kept(old(self)@),
        ensures
            final(self)@ == after_add(old(self)@, path@, identity@, key@),
            well_kept(final(self)@),
            r == ({
                let v = old(self)@;
                if !v.identities.dom().contains(path@) {
                    AddedRepo::Added { new_identity: repo_at(v.repos, identity@) == v.repos.len() }
                } else if v.identities[path@] == identity@ {
                    AddedRepo::Kept { key_changed: !(v.keys.dom().contains(path@) && v.keys[path@] == key@) }
                } else {
                    let left = after_untrack(v, path@);
                    AddedRepo::Moved { new_identity: repo_at(left.repos, identity@) == left.repos.len() }
                }
            }),
    {
        let known = Some(key.to_owned());
        match add_repo_step(self, path, identity) {
            AddRepoStep::Insert => {
                let new_identity = self.track(path, identity, &known);
                AddedRepo::Added { new_identity }
            },
            AddRepoStep::Keep => {
                let key_changed = self.set_repository_key(path, key);
                AddedRepo::Kept { key_changed }
            },
            AddRepoStep::Migrate => {
                assert(can_untrack(self@, path@));
                let _left = self.remove_repo(path);
                let new_identity = self.track(path, identity, &known);
                AddedRepo::Moved { new_identity }
            },
        }
    }
}

/// What adding a path did.
#[derive(Debug, Clone, Copy, PartialEq, Eq, Structural)]
pub enum AddedRepo {
    /// It was tracked as that repository; its key may have become known.
    Kept { key_changed: bool },
    Moved { new_identity: bool },
    Added { new_identity: bool },
}

/// What is tracked once a path was added as a repository.
pub open spec fn after_add(v: RegistryView, path: Seq<char>, identity: (Seq<char>, Seq<char>), key: Seq<char>) -> RegistryView {
    if !v.identities.dom().contains(path) {
        after_track(v, path, identity, Some(key))
    } else if v.identities[path] == identity {
        RegistryView { keys: v.keys.insert(path, key), ..v }
    } else {
        after_track(after_untrack(v, path), path, identity, Some(key))
    }
}

/// A path that was added is tracked as the repository it was added as, and
/// adding it again changes nothing.
pub proof fn law_added_paths_are_tracked(v: RegistryView, path: Seq<char>, identity: (Seq<char>, Seq<char>), key: Seq<char>)
    ensures
        ({
            let after = after_add(v, path, identity, key);
            &&& after.identities.dom().contains(path) && after.identities[path] == identity
            &&& after.keys.dom().contains(path) && after.keys[path] == key
            &&& after_add(after, path, identity, key) == after
        }),
{
    let after = after_add(v, path, identity, key);
    assert(after.keys.insert(path, key) =~= after.keys);
}

/// A path that is tracked from the start.
pub struct StartupRepo {
    pub path: String,
    pub identity: RepoIdentity,
    pub key: Option<String>,
}

/// What is tracked once the paths of the start were added, in order.
pub open spec fn after_startup(v: RegistryView, repos: Seq<StartupRepo>) -> RegistryView
    decreases repos.len(),
{
    if repos.len() == 0 {
        v
    } else {
        let last = repos.last();
        after_track(after_startup(v, repos.drop_last()), last.path@, last.identity@, opt(last.key))
    }
}

/// What a daemon tracks from the start.
pub fn startup_repositories(repos: &Vec<StartupRepo>) -> (r: RepoRegistry)
    ensures
        r@ == after_startup(empty_registry(), repos@),
        well_kept(r@),
{
    let mut r = RepoRegistry::new();
    let mut i: usize = 0;
    assert(repos@.take(0) =~= Seq::<StartupRepo>::empty());
    while i < repos.len()
        invariant
            i <= repos@.len(),
            r@ == after_startup(empty_registry(), repos@.take(i as int)),
            well_kept(r@),
        decreases repos.len() - i,
    {
        assert(repos@.take(i + 1).drop_last() =~= repos@.take(i as int));
        assert(repos@.take(i + 1).last() == repos@[i as int]);
        let _fresh = r.track(repos[i].path.as_str(), &repos[i].identity, &repos[i].key);
        i = i + 1;
    }
    assert(repos@.take(repos@.len() as int) =~= repos@);
    r
}

/// A path that is tracked twice is tracked once.
pub proof fn law_tracking_is_idempotent(
    v: RegistryView,
    path: Seq<char>,
    identity: (Seq<char>, Seq<char>),
    key: Option<Seq<char>>,
    again: (Seq<char>, Seq<char>),
    other_key: Option<Seq<char>>,
)
    ensures
        after_track(after_track(v, path, identity, key), path, again, other_key) == after_track(v, path, identity, key),
{
}

/// Untracking undoes tracking.
pub proof fn law_untracking_undoes_tracking(
    v: RegistryView,
    path: Seq<char>,
    identity: (Seq<char>, Seq<char>),
    key: Option<Seq<char>>,
)
    requires
        well_kept(v),
        !v.identities.dom().contains(path),
        !v.keys.dom().contains(path),
        repo_at(v.repos, identity) < v.repos.len() ==> !has_root(v.repos[repo_at(v.repos, identity)].roots, path),
    ensures
        can_untrack(after_track(v, path, identity, key), path),
        after_untrack(after_track(v, path, identity, key), path) == v,
{
    let root = RootView { path, is_local: true };
    let w = after_track(v, path, identity, key);
    let at = repo_at(v.repos, identity);
    lemma_repo_at(v.repos, identity);
    assert forall|i: int| 0 <= i < at implies (#[trigger] w.repos[i]).identity != identity by {
        assert(w.repos[i].identity == v.repos[i].identity);
    }
    lemma_repo_at_is(w.repos, identity, at);
    let roots = w.repos[at].roots;
    assert(roots[roots.len() - 1].path == path);
    assert(roots.last() == root);
    if at < v.repos.len() {
        assert(roots.drop_last() =~= v.repos[at].roots);
        lemma_without_root(v.repos[at].roots, path);
        assert(without_root(roots, path) == v.repos[at].roots);
        assert(after_untrack(w, path).repos =~= v.repos);
    } else {
        assert(roots.drop_last() =~= Seq::<RootView>::empty());
        assert(without_root(Seq::<RootView>::empty(), path) =~= Seq::<RootView>::empty());
        assert(without_root(roots, path) =~= Seq::<RootView>::empty());
        assert(after_untrack(w, path).repos =~= v.repos);
    }
    assert(after_untrack(w, path).identities =~= v.identities);
    assert(after_untrack(w, path).keys =~= v.keys);
}

/// How a repository is asked for.
pub enum RepoSelector {
    Path { path: String },
    /// Asked for by words; what they resolve to is known.
    Query { resolved: Result<String, String> },
    /// Asked for by identity, which is shown as `shown`; its preferred path is
    /// known where it is tracked.
    Identity { shown: String, preferred: Option<String> },
}

/// The path of a repository that is asked for.
pub open spec fn selected_path(v: RegistryView, selector: RepoSelector) -> Result<Seq<char>, Seq<char>> {
    match selector {
        RepoSelector::Path { path } => if v.identities.dom().contains(path@) {
            Ok(path@)
        } else {
            Err("repo not tracked: "@ + path@)
        },
        RepoSelector::Query { resolved } => match resolved {
            Ok(path) => Ok(path@),
            Err(e) => Err(e@),
        },
        RepoSelector::Identity { shown, preferred } => match preferred {
            Some(path) => Ok(path@),
            None => Err("repo not tracked: "@ + shown@),
        },
    }
}

pub fn resolve_repo_selector(registry: &RepoRegistry, selector: &RepoSelector) -> (r: Result<String, String>)
    ensures
        match r {
            Ok(path) => selected_path(registry@, *selector) == Ok::<Seq<char>, Seq<char>>(path@),
            Err(e) => selected_path(registry@, *selector) == Err::<Seq<char>, Seq<char>>(e@),
        },
{
    match selector {
        RepoSelector::Path { path } => match registry.tracked_repo_identity_for_path(path.as_str()) {
            Some(_) => Ok(path.clone()),
            None => Err(concat2("repo not tracked: ", path.as_str())),
        },
        RepoSelector::Query { resolved } => match resolved {
            Ok(path) => Ok(path.clone()),
            Err(e) => Err(e.clone()),
        },
        RepoSelector::Identity { shown, preferred } => match preferred {
            Some(path) => Ok(path.clone()),
            None => Err(concat2("repo not tracked: ", shown.as_str())),
        },
    }
}

/// A checkout that may be meant.
pub struct CheckoutReading {
    /// The preferred path of its repository.
    pub repo: String,
    pub path: String,
    pub branch: String,
    /// Whether it is where the command is to run.
    pub in_scope: bool,
}

/// How a checkout is asked for.
pub enum CheckoutSelector {
    Path { path: String },
    Query { query: String },
}

/// Whether a checkout is the one asked for.
pub open spec fn is_meant(checkout: CheckoutReading, selector: CheckoutSelector) -> bool {
    checkout.in_scope && match selector {
        CheckoutSelector::Path { path } => checkout.path@ == path@,
        CheckoutSelector::Query { query } => checkout.branch@ == query@ || has_text(checkout.branch@, query@) || has_text(
            checkout.path@,
            query@,
        ),
    }
}

/// The checkouts that are meant.
pub open spec fn meant(checkouts: Seq<CheckoutReading>, selector: CheckoutSelector) -> Seq<int>
    decreases checkouts.len(),
{
    if checkouts.len() == 0 {
        Seq::empty()
    } else if is_meant(checkouts.last(), selector) {
        meant(checkouts.drop_last(), selector).push(checkouts.len() - 1)
    } else {
        meant(checkouts.drop_last(), selector)
    }
}

fn means(checkout: &CheckoutReading, selector: &CheckoutSelector) -> (r: bool)
    ensures
        r == is_meant(*checkout, *selector),
{
    if !checkout.in_scope {
        return false;
    }
    match selector {
        CheckoutSelector::Path { path } => str_eq(checkout.path.as_str(), path.as_str()),
        CheckoutSelector::Query { query } => str_eq(checkout.branch.as_str(), query.as_str()) || str_has_text(
            checkout.branch.as_str(),
            query.as_str(),
        ) || str_has_text(checkout.path.as_str(), query.as_str()),
    }
}

/// The repository and branch of the only checkout that is meant.
pub fn resolve_checkout_selector(checkouts: &Vec<CheckoutReading>, selector: &CheckoutSelector) -> (r: Result<
    (String, String),
    String,
>)
    ensures
        ({
            let found = meant(checkouts@, *selector);
            if found.len() == 0 {
                r matches Err(e) && e@ == "checkout not found"@
            } else if found.len() == 1 {
                r matches Ok((repo, branch)) && repo@ == checkouts@[found[0]].repo@ && branch@
                    == checkouts@[found[0]].branch@
            } else {
                r matches Err(e) && e@ == "checkout selector is ambiguous"@
            }
        }),
{
    let mut found: Vec<usize> = Vec::new();
    let mut i: usize = 0;
    assert(crate::address::ints(found@) =~= meant(checkouts@.take(0), *selector));
    while i < checkouts.len()
        invariant
            i <= checkouts@.len(),
            crate::address::ints(found@) == meant(checkouts@.take(i as int), *selector),
            forall|k: int| 0 <= k < found@.len() ==> #[trigger] found@[k] < i,
        decreases checkouts.len() - i,
    {
        assert(checkouts@.take(i + 1).drop_last() =~= checkouts@.take(i as int));
        assert(checkouts@.take(i + 1).last() == checkouts@[i as int]);
        if means(&checkouts[i], selector) {
            let ghost was = crate::address::ints(found@);
            found.push(i);
            assert(crate::address::ints(found@) =~= was.push(i as int));
        }
        i = i + 1;
    }
    assert(checkouts@.take(checkouts@.len() as int) =~= checkouts@);
    assert(crate::address::ints(found@).len() == found@.len());
    if found.len() == 0 {
        return Err("checkout not found".to_owned());
    }
    if found.len() == 1 {
        assert(crate::address::ints(found@)[0] == found@[0]);
        let at: usize = found[0];
        return Ok((checkouts[at].repo.clone(), checkouts[at].branch.clone()));
    }
    Err("checkout selector is ambiguous".to_owned())
}

/// How a command comes by its repository.
#[derive(Debug, Clone, Copy, PartialEq, Eq, Structural)]
pub enum RepoNeed {
    /// The command names it.
    Named,
    /// It is the context, or the repository of the checkout that is removed.
    ContextOrCheckout,
    /// It is the context.
    Context,
    /// The command is not about one repository.
    NoSingle,
}

/// Where the repository of a command is looked up.
#[derive(Debug, Clone, Copy, PartialEq, Eq, Structural)]
pub enum RepoLookup {
    Command,
    Context,
    Checkout,
}

/// Where the repository of a command is looked up, or why it cannot be.
pub open spec fn lookup_of(need: RepoNeed, has_context: bool) -> Result<RepoLookup, Seq<char>> {
    match need {
        RepoNeed::Named => Ok(RepoLookup::Command),
        RepoNeed::ContextOrCheckout => if has_context {
            Ok(RepoLookup::Context)
        } else {
            Ok(RepoLookup::Checkout)
        },
        RepoNeed::Context => if has_context {
            Ok(RepoLookup::Context)
        } else {
            Err("command requires repo context"@)
        },
        RepoNeed::NoSingle => Err("command does not resolve to a single repo"@),
    }
}

pub fn resolve_repo_for_command(need: RepoNeed, has_context: bool) -> (r: Result<RepoLookup, String>)
    ensures
        match r {
            Ok(lookup) => lookup_of(need, has_context) == Ok::<RepoLookup, Seq<char>>(lookup),
            Err(e) => lookup_of(need, has_context) == Err::<RepoLookup, Seq<char>>(e@),
        },
{
    match need {
        RepoNeed::Named => Ok(RepoLookup::Command),
        RepoNeed::ContextOrCheckout => {
            if has_context {
                Ok(RepoLookup::Context)
            } else {
                Ok(RepoLookup::Checkout)
            }
        },
        RepoNeed::Context => {
            if has_context {
                Ok(RepoLookup::Context)
            } else {
                Err("command requires repo context".to_owned())
            }
        },
        RepoNeed::NoSingle => Err("command does not resolve to a single repo".to_owned()),
    }
}

/// What is known of the stance of a repository.
pub enum StanceReading {
    KeyUnknown,
    Unreadable { error: String },
    Known { is_fork: bool },
}

/// Why a change request may not be merged.
pub open spec fn merge_problem(id: Seq<char>, stance: StanceReading) -> Option<Seq<char>> {
    let unknown = "cannot determine whether merging change request "@ + id
        + " is permitted: repository policy is unavailable"@;
    match stance {
        StanceReading::KeyUnknown => Some(unknown),
        StanceReading::Unreadable { error } => Some(
            "cannot determine whether merging change request "@ + id
                + " is permitted: repository policy is unavailable: "@ + error@,
        ),
        StanceReading::Known { is_fork } => if is_fork {
            Some(
                "merging change request "@ + id
                    + " is forbidden for fork-stance repository; landing is human-only"@,
            )
        } else {
            None
        },
    }
}

/// Merging is refused on a fork, and where it is not known whether the
/// repository is one.
pub fn repository_action_policy_error(id: &str, stance: &StanceReading) -> (r: Option<String>)
    ensures
        opt(r) == merge_problem(id@, *stance),
{
    match stance {
        StanceReading::KeyUnknown => Some(
            concat3(
                "cannot determine whether merging change request ",
                id,
                " is permitted: repository policy is unavailable",
            ),
        ),
        StanceReading::Unreadable { error } => Some(
            concat4(
                "cannot determine whether merging change request ",
                id,
                " is permitted: repository policy is unavailable: ",
                error.as_str(),
            ),
        ),
        StanceReading::Known { is_fork } => {
            if *is_fork {
                Some(
                    concat3(
                        "merging change request ",
                        id,
                        " is forbidden for fork-stance repository; landing is human-only",
                    ),
                )
            } else {
                None
            }
        },
    }
}

/// The path that a repository is tracked at, and the one it was asked for
/// where that is another. `root` is the root of the repository, where the path
/// is in one.
pub fn normalize_repo_path(root: &Option<String>, canonical_path: &str, path: &str) -> (r: (String, Option<String>))
    ensures
        match *root {
            Some(root) => r.0@ == root@ && opt(r.1) == if root@ != canonical_path@ {
                Some(path@)
            } else {
                None
            },
            None => r.0@ == path@ && r.1 is None,
        },
{
    match root {
        Some(root) => {
            if str_eq(root.as_str(), canonical_path) {
                (root.clone(), None)
            } else {
                (root.clone(), Some(path.to_owned()))
            }
        },
        None => (path.to_owned(), None),
    }
}

/// What adding a path comes to.
#[derive(Debug, Clone, Copy, PartialEq, Eq, Structural)]
pub enum AddRepoStep {
    /// It is tracked as that repository; only its key may have changed.
    Keep,
    /// It is tracked as another repository, and has to leave that first.
    Migrate,
    Insert,
}

pub fn add_repo_step(registry: &RepoRegistry, path: &str, identity: &RepoIdentity) -> (r: AddRepoStep)
    ensures
        r == if !registry@.identities.dom().contains(path@) {
            AddRepoStep::Insert
        } else if registry@.identities[path@] == identity@ {
            AddRepoStep::Keep
        } else {
            AddRepoStep::Migrate
        },
{
    match registry.tracked_repo_identity_for_path(path) {
        None => AddRepoStep::Insert,
        Some(known) => {
            if known.same(identity) {
                AddRepoStep::Keep
            } else {
                AddRepoStep::Migrate
            }
        },
    }
}

/// What refreshing a path comes to.
#[derive(Debug, Clone, Copy, PartialEq, Eq, Structural)]
pub enum RefreshStep {
    /// Its repository could not be inspected; nothing is done.
    Unavailable,
    /// Its key is the same; only its configuration is looked at.
    Configure,
    /// Its key changed; its project is reconciled.
    Reconcile,
}

/// `inspected` is the key that the path now has.
pub fn refresh_step(registry: &RepoRegistry, path: &str, inspected: &Option<String>) -> (r: RefreshStep)
    ensures
        r == match *inspected {
            None => RefreshStep::Unavailable,
            Some(key) => if registry@.keys.dom().contains(path@) && registry@.keys[path@] == key@ {
                RefreshStep::Configure
            } else {
                RefreshStep::Reconcile
            },
        },
{
    match inspected {
        None => RefreshStep::Unavailable,
        Some(key) => match registry.repository_key_for_path(path) {
            Some(known) => {
                if str_eq(known.as_str(), key.as_str()) {
                    RefreshStep::Configure
                } else {
                    RefreshStep::Reconcile
                }
            },
            None => RefreshStep::Reconcile,
        },
    }
}

} // verus!
