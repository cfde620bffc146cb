//! What holds of every list of projects, repositories and providers, and of
//! the environment that a host has.
use vstd::prelude::*;

use crate::environment::{line_vars, repo_count, set_vars, text_lines, EnvironmentAssertion};
use crate::listing::{
    lists_project, lists_repo, member_repos, member_subpaths, provided, HostProvider, ListedMember, ListedProjectRecord,
    ProjectListEntry, RepoDetails, RepoInfo,
};
use crate::ordered::{lemma_sorted_unique_exists, sorted_unique};
use crate::repos::RegistryView;
use crate::text::{holds, opt, split_once, strs};

verus! {

proof fn lemma_subpaths(members: Seq<ListedMember>, repo: Seq<char>, path: Seq<char>)
    ensures
        holds(member_subpaths(members, repo), path) <==> exists|i: int|
            0 <= i < members.len() && (#[trigger] members[i]).repo@ == repo && opt(members[i].subpath) == Some(path),
    decreases members.len(),
{
    if members.len() > 0 {
        let front = members.drop_last();
        lemma_subpaths(front, repo, path);
        let before = member_subpaths(front, repo);
        let all = member_subpaths(members, repo);
        let n = members.len() - 1;
        assert(members[n] == members.last());
        if holds(all, path) {
            let k = choose|k: int| 0 <= k < all.len() && #[trigger] all[k] == path;
            if k < before.len() {
                assert(before[k] == path);
                let i = choose|i: int| 0 <= i < front.len() && (#[trigger] front[i]).repo@ == repo && opt(front[i].subpath) == Some(path);
                assert(members[i] == front[i]);
            }
        }
        if exists|i: int| 0 <= i < members.len() && (#[trigger] members[i]).repo@ == repo && opt(members[i].subpath) == Some(path) {
            let i = choose|i: int| 0 <= i < members.len() && (#[trigger] members[i]).repo@ == repo && opt(members[i].subpath) == Some(path);
            if i < n {
                assert(front[i] == members[i]);
                assert(holds(before, path));
                let k = choose|k: int| 0 <= k < before.len() && #[trigger] before[k] == path;
                assert(all[k] == path);
            } else {
                assert(all[before.len() as int] == path);
            }
        }
    }
}

/// A project is listed as it is, with each of its repositories once, its slug
/// where it is known, and the parts of it that the members are about.
pub proof fn law_projects_are_listed_as_they_are(e: ProjectListEntry, p: ListedProjectRecord, slugs: Map<Seq<char>, Seq<char>>, m: int, path: Seq<char>)
    requires
        lists_project(e, p, slugs),
        0 <= m < p.members@.len(),
    ensures
        e.namespace@ == p.namespace@ && e.name@ == p.name@ && e.display_name@ == p.display_name@ && opt(e.issue_source) == opt(
            p.issue_source,
        ) && e.default_workflow_ref@ == p.default_workflow_ref@,
        exists|r: int|
            0 <= r < e.repositories@.len() && (#[trigger] e.repositories@[r]).key@ == p.members@[m].repo@ && opt(e.repositories@[r].slug)
                == (if slugs.dom().contains(p.members@[m].repo@) {
                Some(slugs[p.members@[m].repo@])
            } else {
                None
            }) && (holds(strs(e.repositories@[r].subpaths@), path) <==> exists|i: int|
                0 <= i < p.members@.len() && (#[trigger] p.members@[i]).repo@ == p.members@[m].repo@ && opt(p.members@[i].subpath)
                    == Some(path)),
{
    let repos = member_repos(p.members@);
    let keys = sorted_unique(repos);
    lemma_sorted_unique_exists(repos);
    let key = p.members@[m].repo@;
    assert(repos[m] == key);
    assert(holds(repos, key));
    assert(holds(keys, key));
    let r = choose|r: int| 0 <= r < keys.len() && #[trigger] keys[r] == key;
    assert(crate::listing::lists_repository(e.repositories@[r], keys[r], p.members@, slugs));
    lemma_subpaths(p.members@, key, path);
    lemma_sorted_unique_exists(member_subpaths(p.members@, key));
}

/// A repository is listed under its identity, at its preferred place, with the
/// key that the place has.
pub proof fn law_repositories_are_listed_as_they_are(r: RepoInfo, registry: RegistryView, i: int, d: RepoDetails)
    requires
        lists_repo(r, registry, i, d),
    ensures
        r.identity@ == registry.repos[i].identity,
        r.path@ == d.preferred_path@,
        r.name@ == d.name@,
        registry.keys.dom().contains(d.preferred_path@) ==> opt(r.repository_key) == Some(registry.keys[d.preferred_path@]),
        !registry.keys.dom().contains(d.preferred_path@) ==> r.repository_key is None,
        !r.loading,
{
}

/// A host has the providers that were found on it, as they were found, and of
/// those that it advertises the ones that were not found; of each category and
/// kind one at least, and none that is neither.
pub proof fn law_found_providers_come_first(found: Seq<HostProvider>, advertised: Seq<HostProvider>, i: int)
    ensures
        provided(found, advertised).len() >= found.len(),
        forall|k: int| 0 <= k < found.len() ==> #[trigger] provided(found, advertised)[k] == found[k],
        0 <= i < advertised.len() ==> exists|k: int|
            0 <= k < provided(found, advertised).len() && (#[trigger] provided(found, advertised)[k]).category@ == advertised[i].category@
                && provided(found, advertised)[k].implementation@ == advertised[i].implementation@,
        forall|k: int|
            found.len() <= k < provided(found, advertised).len() ==> advertised.contains(#[trigger] provided(found, advertised)[k]),
    decreases advertised.len(),
{
    if advertised.len() > 0 {
        let front = advertised.drop_last();
        law_found_providers_come_first(found, front, i);
        let before = provided(found, front);
        let all = provided(found, advertised);
        assert(forall|k: int| 0 <= k < before.len() ==> #[trigger] all[k] == before[k]);
        if 0 <= i < advertised.len() {
            if i < front.len() {
                assert(front[i] == advertised[i]);
                let k = choose|k: int|
                    0 <= k < before.len() && (#[trigger] before[k]).category@ == front[i].category@ && before[k].implementation@
                        == front[i].implementation@;
                assert(all[k] == before[k]);
            } else if crate::listing::provides(before, advertised.last()) {
                let k = choose|k: int|
                    0 <= k < before.len() && (#[trigger] before[k]).category@ == advertised.last().category@ && before[k].implementation@
                        == advertised.last().implementation@;
                assert(all[k] == before[k]);
            } else {
                assert(all[before.len() as int] == advertised.last());
            }
        }
        assert forall|k: int| found.len() <= k < all.len() implies advertised.contains(#[trigger] all[k]) by {
            if k < before.len() {
                assert(front.contains(before[k]));
                let j = choose|j: int| 0 <= j < front.len() && front[j] == before[k];
                assert(advertised[j] == all[k]);
            } else {
                assert(advertised[advertised.len() - 1] == all[k]);
            }
        }
    }
}

/// A variable has the value that was set last, and is set where it was at
/// all.
pub proof fn law_the_last_value_is_set(assertions: Seq<EnvironmentAssertion>, key: Seq<char>, value: Seq<char>)
    ensures
        set_vars(assertions).dom().contains(key) <==> exists|i: int|
            0 <= i < assertions.len() && (#[trigger] assertions[i] matches EnvironmentAssertion::EnvVarSet { key: k, value: v } && k@ == key),
        (assertions.len() > 0 && (assertions.last() matches EnvironmentAssertion::EnvVarSet { key: k, value: v } && k@ == key && v@ == value))
            ==> set_vars(assertions)[key] == value,
        (assertions.len() > 0 && !(assertions.last() matches EnvironmentAssertion::EnvVarSet { key: k, value: v } && k@ == key)
            && set_vars(assertions.drop_last()).dom().contains(key)) ==> set_vars(assertions)[key] == set_vars(
            assertions.drop_last(),
        )[key],
    decreases assertions.len(),
{
    if assertions.len() > 0 {
        let front = assertions.drop_last();
        law_the_last_value_is_set(front, key, value);
        let n = assertions.len() - 1;
        assert(assertions[n] == assertions.last());
        if set_vars(front).dom().contains(key) {
            let i = choose|i: int|
                0 <= i < front.len() && (#[trigger] front[i] matches EnvironmentAssertion::EnvVarSet { key: k, value: v } && k@ == key);
            assert(assertions[i] == front[i]);
        }
        if exists|i: int|
            0 <= i < assertions.len() && (#[trigger] assertions[i] matches EnvironmentAssertion::EnvVarSet { key: k, value: v } && k@ == key) {
            let i = choose|i: int|
                0 <= i < assertions.len() && (#[trigger] assertions[i] matches EnvironmentAssertion::EnvVarSet { key: k, value: v } && k@ == key);
            if i < n {
                assert(front[i] == assertions[i]);
            }
        }
    }
}

/// A line of the environment sets the variable before its first equals sign
/// to what is behind it; a line without one sets nothing, and the last line
/// for a variable counts.
pub proof fn law_lines_set_their_variable(lines: Seq<Seq<char>>, line: Seq<char>, key: Seq<char>, value: Seq<char>)
    ensures
        !key.contains('=') && line == key.push('=') + value ==> line_vars(lines.push(line)).dom().contains(key) && line_vars(
            lines.push(line),
        )[key] == value,
        !line.contains('=') ==> line_vars(lines.push(line)) == line_vars(lines),
        !key.contains('=') && line == key.push('=') + value ==> line_vars(lines.push(line)).remove(key) == line_vars(lines).remove(key),
{
    assert(lines.push(line).drop_last() =~= lines);
    crate::text_laws::law_texts_are_split_at_the_first(line, '=');
    if !key.contains('=') && line == key.push('=') + value {
        let n = key.len() as int;
        assert(line[n] == '=');
        crate::text::lemma_first_at(line, '=');
        let at = crate::text::first_at(line, '=');
        if at < n {
            assert(line[at] == key[at]);
            assert(key.contains('='));
        }
        assert(at == n);
        assert(line.take(n) =~= key);
        assert(line.skip(n + 1) =~= value);
        assert(line_vars(lines.push(line)).remove(key) =~= line_vars(lines).remove(key));
    }
}

/// A host counts one repository more for an environment with each that
/// prefers it.
pub proof fn law_repositories_are_counted_where_they_are_preferred(preferred: Seq<Option<String>>, next: Option<String>, environment: Seq<char>)
    ensures
        repo_count(Seq::empty(), environment) == 0,
        repo_count(preferred.push(next), environment) == repo_count(preferred, environment) + (if opt(next) == Some(environment) {
            1int
        } else {
            0
        }),
{
    assert(preferred.push(next).drop_last() =~= preferred);
}

/// The lines of a text end at line feeds, without the carriage return that may
/// stand before one.
pub proof fn law_lines_end_at_line_feeds(line: Seq<char>, rest: Seq<char>)
    requires
        !line.contains('\n'),
    ensures
        line.len() > 0 ==> text_lines(line) == seq![line],
        line.len() == 0 || line.last() != '\r' ==> text_lines(line.push('\n') + rest) == seq![line] + text_lines(rest),
        text_lines(line.push('\r').push('\n') + rest) == seq![line] + text_lines(rest),
{
    crate::text_laws::law_texts_are_split_at_the_first(line, '\n');
    lemma_split_at(line, rest);
    let returned = line.push('\r');
    if returned.contains('\n') {
        let i = choose|i: int| 0 <= i < returned.len() && returned[i] == '\n';
        assert(line[i] == '\n');
    }
    lemma_split_at(returned, rest);
    assert(returned.drop_last() =~= line);
}

proof fn lemma_split_at(line: Seq<char>, rest: Seq<char>)
    requires
        !line.contains('\n'),
    ensures
        split_once(line.push('\n') + rest, '\n') == Some((line, rest)),
{
    let s = line.push('\n') + rest;
    let n = line.len() as int;
    assert(s[n] == '\n');
    crate::text::lemma_first_at(s, '\n');
    let at = crate::text::first_at(s, '\n');
    if at < n {
        assert(line[at] == s[at]);
    }
    assert(at == n);
    assert(s.take(n) =~= line);
    assert(s.skip(n + 1) =~= rest);
}

} // verus!
