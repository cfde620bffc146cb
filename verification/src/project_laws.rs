//! What holds of every project: of the repositories that it brings, and of how
//! it is added, found, moved and told from others.
use vstd::prelude::*;

use crate::evidence::present;
use crate::naming::{checked_project_name, project_name};
use crate::ordered::{lemma_sorted_unique_exists, sorted_unique};
use crate::projects::{
    convoy_repository_of, first_of, member_branch, member_decided, member_problems, refresh_source, resolved, resolved_repos,
    snapshot_of, snapshots_of, subpaths_of, ConvoyRepository, MemberReading, MemberStep, ProjectMember, RepositorySnapshot,
};
use crate::text::{ends, holds, lex_lt, opt, strs};
use crate::whole_repository::{
    add_step, added_name, candidate_names, declared_definition, definition_step, generated_definition, is_duplicate, is_obsolete,
    migratable, moved_repositories, must_move, name_step_of, old_repository, once_each, primary, project_target, superseded, AddStep,
    CatalogMatch, CreateReply, DeclaredMember, DefinedRepository, DefinitionStep, GeneratedNames, KnownRepository, ListedProject,
    NameStep, OldRepository, PathKey, ProjectDefinition, ProjectRecord,
};

verus! {

proof fn lemma_present_none(list: Seq<Option<Seq<char>>>, i: int)
    requires
        present(list).len() == 0,
        0 <= i < list.len(),
    ensures
        list[i] is None,
    decreases list.len(),
{
    if i < list.len() - 1 {
        assert(list.drop_last()[i] == list[i]);
        lemma_present_none(list.drop_last(), i);
    }
}

proof fn lemma_resolved(members: Seq<ProjectMember>, repo: Seq<char>)
    ensures
        holds(resolved_repos(members), repo) <==> exists|i: int|
            0 <= i < members.len() && resolved(#[trigger] members[i]) && members[i].repo@ == repo,
    decreases members.len(),
{
    if members.len() > 0 {
        let front = members.drop_last();
        lemma_resolved(front, repo);
        let before = resolved_repos(front);
        let all = resolved_repos(members);
        let n = members.len() - 1;
        assert(members[n] == members.last());
        if holds(all, repo) {
            let k = choose|k: int| 0 <= k < all.len() && #[trigger] all[k] == repo;
            if k < before.len() {
                assert(before[k] == repo);
                let i = choose|i: int| 0 <= i < front.len() && resolved(#[trigger] front[i]) && front[i].repo@ == repo;
                assert(members[i] == front[i]);
            }
        }
        if exists|i: int| 0 <= i < members.len() && resolved(#[trigger] members[i]) && members[i].repo@ == repo {
            let i = choose|i: int| 0 <= i < members.len() && resolved(#[trigger] members[i]) && members[i].repo@ == repo;
            if i < n {
                assert(front[i] == members[i]);
                assert(holds(before, repo));
                let k = choose|k: int| 0 <= k < before.len() && #[trigger] before[k] == repo;
                assert(all[k] == repo);
            } else {
                assert(all[before.len() as int] == repo);
            }
        }
    }
}

proof fn lemma_first_of(members: Seq<ProjectMember>, repo: Seq<char>, i: int)
    requires
        0 <= i < members.len(),
        resolved(members[i]) && members[i].repo@ == repo,
    ensures
        0 <= first_of(members, repo) <= i,
        resolved(members[first_of(members, repo)]) && members[first_of(members, repo)].repo@ == repo,
    decreases members.len(),
{
    if !(resolved(members[0]) && members[0].repo@ == repo) {
        let rest = members.drop_first();
        assert(rest[i - 1] == members[i]);
        lemma_first_of(rest, repo, i - 1);
        assert(rest[first_of(rest, repo)] == members[first_of(rest, repo) + 1]);
    }
}

proof fn lemma_subpaths(members: Seq<ProjectMember>, repo: Seq<char>, i: int)
    requires
        0 <= i < members.len(),
        resolved(members[i]) && members[i].repo@ == repo && members[i].subpath is Some,
    ensures
        holds(subpaths_of(members, repo), members[i].subpath->0@),
    decreases members.len(),
{
    let front = members.drop_last();
    let before = subpaths_of(front, repo);
    let all = subpaths_of(members, repo);
    let path = members[i].subpath->0@;
    if i < front.len() {
        assert(front[i] == members[i]);
        lemma_subpaths(front, repo, i);
        let k = choose|k: int| 0 <= k < before.len() && #[trigger] before[k] == path;
        assert(all[k] == path);
    } else {
        assert(all[before.len() as int] == path);
    }
}

/// The branch that a member stands for: its own, else that of its repository.
pub open spec fn stands_for(member: ProjectMember) -> Option<Seq<char>> {
    match (member.default_branch, member.reading) {
        (Some(branch), _) => Some(branch@),
        (None, Ok(reading)) => opt(reading.default_branch),
        (None, Err(_)) => None,
    }
}

/// A project that is ready brings the repository of each of its members that
/// hold code, once, on the branch that the member stands for and with the part
/// of it that the member is about; each of these could be read and can be
/// fetched.
pub proof fn law_ready_projects_bring_their_code(list: Vec<RepositorySnapshot>, project: Seq<char>, members: Seq<ProjectMember>, i: int)
    requires
        snapshots_of(Ok(list), project, members),
        0 <= i < members.len(),
        members[i].code,
    ensures
        members[i].reading matches Ok(reading) && reading.key_error is None && reading.url is Some,
        exists|k: int|
            0 <= k < list@.len() && (#[trigger] list@[k]).repo_ref@ == members[i].repo@ && Some(list@[k].branch@) == stands_for(members[i])
                && (members[i].subpath matches Some(path) ==> holds(strs(list@[k].subpaths@), path@)),
{
    let problems = member_problems(members);
    assert(present(problems).len() == 0);
    lemma_present_none(problems, i);
    let repo = members[i].repo@;
    let all = resolved_repos(members);
    lemma_resolved(members, repo);
    assert(resolved(members[i]));
    lemma_first_of(members, repo, i);
    lemma_sorted_unique_exists(all);
    let repos = sorted_unique(all);
    assert(holds(repos, repo));
    let k = choose|k: int| 0 <= k < repos.len() && #[trigger] repos[k] == repo;
    assert(snapshot_of(list@[k], members, repos[k]));
    assert(member_branch(members[first_of(members, repo)]) == member_branch(members[i]));
    if members[i].subpath is Some {
        lemma_subpaths(members, repo, i);
        lemma_sorted_unique_exists(subpaths_of(members, repo));
    }
}

/// A project that is ready brings nothing but repositories of members that
/// hold code, from where such a member says that it can be fetched.
pub proof fn law_projects_bring_only_their_code(list: Vec<RepositorySnapshot>, project: Seq<char>, members: Seq<ProjectMember>, k: int)
    requires
        snapshots_of(Ok(list), project, members),
        0 <= k < list@.len(),
    ensures
        exists|i: int|
            0 <= i < members.len() && (#[trigger] members[i]).code && members[i].repo@ == list@[k].repo_ref@ && (
            members[i].reading matches Ok(reading) && opt(reading.url) == Some(list@[k].url@)) && stands_for(members[i]) == Some(
                list@[k].branch@,
            ),
{
    let all = resolved_repos(members);
    lemma_sorted_unique_exists(all);
    let repos = sorted_unique(all);
    assert(snapshot_of(list@[k], members, repos[k]));
    assert(holds(repos, repos[k]));
    lemma_resolved(members, repos[k]);
    let j = choose|j: int| 0 <= j < members.len() && resolved(#[trigger] members[j]) && members[j].repo@ == repos[k];
    lemma_first_of(members, repos[k], j);
    assert(members[first_of(members, repos[k])].code);
}

/// A convoy starts from, and goes back to, the branch that the project stands
/// for.
pub proof fn law_convoys_go_back_to_the_branch_of_the_project(c: ConvoyRepository, s: RepositorySnapshot, slug: Seq<char>)
    requires
        convoy_repository_of(c, s, slug),
    ensures
        c.source_ref@ == s.branch@,
        c.target_ref@ == s.branch@,
        c.repo_ref@ == s.repo_ref@,
        c.url@ == s.url@,
        c.workspace_slug@ == slug,
        strs(c.subpaths@) == strs(s.subpaths@),
{
}

/// A member that is declared is settled in steps, each after the last: its
/// repository, its mark, its check; under its own key, which an alias may
/// change, and never past a failure.
pub proof fn law_members_are_settled_in_order(step: MemberStep, alias: Seq<char>, key: Seq<char>, declared: Seq<char>, reading: MemberReading)
    requires
        member_decided(step, alias, key, declared, reading),
    ensures
        step matches MemberStep::Ensure { key: k } ==> k@ == key && key == declared && reading.repository is None,
        step matches MemberStep::Get { key: k } ==> k@ == key && key != declared && reading.repository is None,
        step matches MemberStep::Mark { key: k } ==> k@ == key && (reading.repository matches Some(Ok(_))) && reading.marked is None,
        step matches MemberStep::Verify { key: k } ==> k@ == key && (reading.repository matches Some(Ok(_))) && (
        reading.marked matches Some(Ok(_))) && reading.verified is None,
        step matches MemberStep::Settled { key: k } ==> k@ == key && (reading.repository matches Some(Ok(_))) && (
        reading.marked matches Some(Ok(_))) && (reading.verified matches Some(Ok(_))),
        step is Refuse ==> (reading.repository matches Some(Err(_))) || (reading.marked matches Some(Err(_))) || (
        reading.verified matches Some(Err(_))),
{
}

/// A project is refreshed from its declaration, and not without one.
pub proof fn law_projects_are_refreshed_from_their_declaration(name: Seq<char>, path: Option<Seq<char>>)
    ensures
        refresh_source(name, path) matches Ok(p) ==> path == Some(p) && checked_project_name(name) is Ok,
        path is None ==> refresh_source(name, path) is Err,
        path is Some && checked_project_name(name) is Ok ==> refresh_source(name, path) is Ok,
{
}

/// A project that is made for a repository holds that repository, whole and
/// alone, without further ado, and starts a single trusted agent.
pub proof fn law_made_projects_hold_one_whole_repository(d: ProjectDefinition, key: Seq<char>, display_name: Seq<char>)
    requires
        generated_definition(d, key, display_name),
    ensures
        d.display_name@ == display_name,
        d.default_workflow_ref@ == "single-agent-trusted"@,
        d.issue_source is None,
        d.repositories@.len() == 1,
        d.repositories@[0].repo@ == key,
        d.repositories@[0].subpath is None && d.repositories@[0].alias is None && d.repositories@[0].default_branch is None
            && d.repositories@[0].roles@.len() == 0,
{
}

proof fn lemma_once_each(s: Seq<Seq<char>>)
    ensures
        forall|x: Seq<char>| #[trigger] holds(once_each(s), x) <==> holds(s, x),
        forall|i: int, j: int| 0 <= i < j < once_each(s).len() ==> #[trigger] once_each(s)[i] != #[trigger] once_each(s)[j],
        s.len() > 0 ==> once_each(s).len() > 0 && once_each(s)[0] == s[0],
        once_each(s).len() <= s.len(),
    decreases s.len(),
{
    if s.len() > 0 {
        let front = s.drop_last();
        lemma_once_each(front);
        let before = once_each(front);
        let all = once_each(s);
        assert forall|x: Seq<char>| #[trigger] holds(all, x) <==> holds(s, x) by {
            if holds(all, x) {
                let k = choose|k: int| 0 <= k < all.len() && #[trigger] all[k] == x;
                if k < before.len() {
                    assert(before[k] == x);
                    assert(holds(before, x));
                    let i = choose|i: int| 0 <= i < front.len() && #[trigger] front[i] == x;
                    assert(s[i] == x);
                } else {
                    assert(s[s.len() - 1] == x);
                }
            }
            if holds(s, x) {
                let i = choose|i: int| 0 <= i < s.len() && #[trigger] s[i] == x;
                if i < front.len() {
                    assert(front[i] == x);
                    assert(holds(before, x));
                    let k = choose|k: int| 0 <= k < before.len() && #[trigger] before[k] == x;
                    assert(all[k] == x);
                } else if holds(before, x) {
                    let k = choose|k: int| 0 <= k < before.len() && #[trigger] before[k] == x;
                    assert(all[k] == x);
                } else {
                    assert(all[before.len() as int] == x);
                }
            }
        }
        assert forall|i: int, j: int| 0 <= i < j < all.len() implies #[trigger] all[i] != #[trigger] all[j] by {
            if j < before.len() {
                assert(before[i] != before[j]);
            } else {
                assert(before[i] == all[i]);
                if all[i] == all[j] {
                    assert(holds(before, s.last()));
                }
            }
        }
    }
}

/// A repository's own project is called by the name of its leaf, else by that
/// of the catalog, else by that with the beginning of its key: in this order,
/// and none of them twice.
pub proof fn law_made_projects_are_named_in_turn(leaf: Seq<char>, catalog: Seq<char>, key: Seq<char>)
    ensures
        candidate_names(leaf, catalog, key) is Ok <==> project_name(leaf) is Ok && project_name(catalog) is Ok,
        candidate_names(leaf, catalog, key) matches Ok(list) ==> {
            let display = project_name(leaf)->Ok_0;
            let listed = project_name(catalog)->Ok_0;
            &&& 1 <= list.len() <= 3
            &&& list[0] == display
            &&& holds(list, listed)
            &&& holds(list, listed + "-"@ + (if key.len() <= 8 {
                key
            } else {
                key.take(8)
            }))
            &&& forall|i: int, j: int| 0 <= i < j < list.len() ==> #[trigger] list[i] != #[trigger] list[j]
        },
{
    if candidate_names(leaf, catalog, key) is Ok {
        let display = project_name(leaf)->Ok_0;
        let listed = project_name(catalog)->Ok_0;
        let last = listed + "-"@ + crate::whole_repository::key_suffix(key);
        let all = seq![display, listed, last];
        lemma_once_each(all);
        assert(all[0] == display && all[1] == listed && all[2] == last);
        assert(holds(all, listed));
        assert(holds(all, last));
    }
}

/// A repository that is found at a path is taken from there, and has to be the
/// one that the catalog knows under the same target, if it knows one; without
/// a path the catalog has to know exactly one.
pub proof fn law_targets_mean_one_repository(
    target: Seq<char>,
    path_key: Option<Seq<char>>,
    catalog: Seq<CatalogMatch>,
    remote_given: bool,
)
    ensures
        project_target(target, path_key, catalog, remote_given) matches Ok((key, at_path)) ==> {
            &&& at_path <==> path_key is Some
            &&& (path_key matches Some(k) ==> key == k)
            &&& (path_key is None ==> !remote_given && exists|i: int| 0 <= i < catalog.len() && (#[trigger] catalog[i]).key@ == key)
        },
        path_key is None && catalog.len() == 0 ==> project_target(target, path_key, catalog, remote_given) is Err,
{
    let keys = crate::whole_repository::match_keys(catalog);
    lemma_sorted_unique_exists(keys);
    let distinct = sorted_unique(keys);
    if distinct.len() > 0 {
        assert(holds(distinct, distinct[0]));
        assert(holds(keys, distinct[0]));
        let i = choose|i: int| 0 <= i < keys.len() && #[trigger] keys[i] == distinct[0];
        assert(catalog[i].key@ == distinct[0]);
    }
}

/// A project is called what it is to be called, else by the name of its
/// repository.
pub proof fn law_added_projects_are_named_as_asked(leaf: Seq<char>, explicit: Option<Seq<char>>)
    ensures
        added_name(leaf, explicit) matches Ok((name, default)) ==> checked_project_name(name) is Ok && project_name(leaf) == Ok::<
            Seq<char>,
            Seq<char>,
        >(default) && name == (if explicit is Some {
            explicit->0
        } else {
            default
        }),
{
}

/// A project is made where there is none of its name; one that is there is
/// used again only where it is the same: not declared, of this repository,
/// whole and alone, and called as asked. It is marked unless it is marked or
/// declared already.
pub proof fn law_projects_are_used_again_where_they_are_the_same(
    name: Seq<char>,
    key: Seq<char>,
    display_name: Option<Seq<char>>,
    existing: Option<ProjectRecord>,
)
    ensures
        existing is None <==> (add_step(name, key, display_name, existing) matches Ok(AddStep::Create)),
        existing matches Some(project) ==> (add_step(name, key, display_name, existing) is Ok <==> !project.declared
            && project.definition.repositories@.len() == 1 && project.definition.repositories@[0].repo@ == key
            && project.definition.repositories@[0].subpath is None && (display_name matches Some(d) ==> d
            == project.definition.display_name@)),
        existing matches Some(project) ==> (add_step(name, key, display_name, existing) matches Ok(AddStep::Reuse { step }) ==> (
        step == DefinitionStep::Keep <==> project.generated)),
{
}

/// A project keeps its definition where it is declared or marked as made, and
/// is marked otherwise.
pub proof fn law_unmarked_projects_are_marked(project: ProjectRecord)
    ensures
        definition_step(project) == DefinitionStep::Mark <==> !project.declared && !project.generated,
{
}

/// What a repository supersedes is what was at its places before, what is the
/// same checkout and what it declares to be its own, and never itself; of this
/// all moves that is not tracked at another place, and all that is declared.
pub proof fn law_superseded_repositories_were_here(
    key: Seq<char>,
    known: Seq<KnownRepository>,
    paths: Seq<PathKey>,
    observed: Seq<PathKey>,
    k: Seq<char>,
)
    ensures
        ({
            let was_here = (exists|i: int| 0 <= i < paths.len() && (#[trigger] paths[i]).here && paths[i].key@ == k) || (exists|i: int|
                0 <= i < observed.len() && (#[trigger] observed[i]).here && observed[i].key@ == k);
            let is_same = exists|i: int| 0 <= i < known.len() && (#[trigger] known[i]).key@ == k && known[i].same_checkout;
            let is_declared = exists|i: int| 0 <= i < known.len() && (#[trigger] known[i]).key@ == k && known[i].declared;
            let is_elsewhere = exists|i: int| 0 <= i < paths.len() && !(#[trigger] paths[i]).here && paths[i].key@ == k;
            &&& superseded(key, known, paths, observed).contains(k) <==> k != key && (was_here || is_same || is_declared)
            &&& migratable(key, known, paths, observed).contains(k) <==> k != key && (is_declared || ((was_here || is_same)
                && !is_elsewhere))
        }),
{
    let replaced = crate::whole_repository::replaces(known, k);
    if replaced {
        let i = choose|i: int| 0 <= i < known.len() && (#[trigger] known[i]).key@ == k && (known[i].same_checkout || known[i].declared);
        assert(known[i].key@ == k);
    }
    if exists|i: int| 0 <= i < known.len() && (#[trigger] known[i]).key@ == k && known[i].same_checkout {
        let i = choose|i: int| 0 <= i < known.len() && (#[trigger] known[i]).key@ == k && known[i].same_checkout;
        assert(known[i].key@ == k && (known[i].same_checkout || known[i].declared));
    }
    if exists|i: int| 0 <= i < known.len() && (#[trigger] known[i]).key@ == k && known[i].declared {
        let i = choose|i: int| 0 <= i < known.len() && (#[trigger] known[i]).key@ == k && known[i].declared;
        assert(known[i].key@ == k && (known[i].same_checkout || known[i].declared));
    }
}

/// Only a project that was made for a single repository that moves is given
/// up as obsolete, and never one that has a name of the repository itself.
pub proof fn law_only_made_projects_are_given_up(
    project: ProjectRecord,
    g: GeneratedNames,
    migrating: Set<Seq<char>>,
    known: Seq<KnownRepository>,
)
    requires
        is_obsolete(project, g, migrating, known),
    ensures
        project.generated,
        !g.canonical@.contains(project.name@),
        project.definition.repositories@.len() == 1,
        migrating.contains(project.definition.repositories@[0].repo@),
        g.names@.contains(project.name@) || ends(project.name@, "-lab"@),
{
}

/// A project that moves points to the new repository wherever it pointed to
/// one that moves, and is otherwise as it was; one that is declared does not
/// move, nor does one that points to none of them.
pub proof fn law_moving_changes_the_repository_alone(
    project: ProjectRecord,
    after: Seq<DefinedRepository>,
    key: Seq<char>,
    migrating: Set<Seq<char>>,
    i: int,
)
    requires
        must_move(project, migrating),
        moved_repositories(after, project.definition.repositories@, key, migrating),
        0 <= i < project.definition.repositories@.len(),
    ensures
        !project.declared,
        after.len() == project.definition.repositories@.len(),
        migrating.contains(project.definition.repositories@[i].repo@) ==> after[i].repo@ == key,
        !migrating.contains(project.definition.repositories@[i].repo@) ==> after[i].repo@ == project.definition.repositories@[i].repo@,
        opt(after[i].subpath) == opt(project.definition.repositories@[i].subpath),
        opt(after[i].alias) == opt(project.definition.repositories@[i].alias),
        strs(after[i].roles@) == strs(project.definition.repositories@[i].roles@),
        opt(after[i].default_branch) == opt(project.definition.repositories@[i].default_branch),
        exists|j: int|
            0 <= j < project.definition.repositories@.len() && migrating.contains(
                (#[trigger] project.definition.repositories@[j]).repo@,
            ),
{
    let list = project.definition.repositories@;
    let j = choose|j: int| 0 <= j < list.len() && migrating.contains((#[trigger] list[j]).repo@);
    assert(migrating.contains(list[j].repo@));
    assert(after[i].repo@ == after[i].repo@);
}

/// Whether a project holds one repository, whole and alone.
pub open spec fn holds_only(project: ProjectRecord, key: Seq<char>) -> bool {
    let list = project.definition.repositories@;
    list.len() == 1 && list[0].repo@ == key && list[0].subpath is None
}

/// The project that stays for a repository is one that holds it whole and
/// alone: one that was moved, where there is one; among those, one that does
/// not have a made name, where there is one; and among those the first by
/// name.
pub proof fn law_the_best_project_stays(projects: Seq<ListedProject>, key: Seq<char>, g: Set<Seq<char>>)
    ensures
        match primary(projects, key, g) {
            None => forall|i: int| 0 <= i < projects.len() ==> !holds_only((#[trigger] projects[i]).record, key),
            Some(p) => 0 <= p < projects.len() && holds_only(projects[p].record, key) && forall|i: int|
                0 <= i < projects.len() && holds_only((#[trigger] projects[i]).record, key) ==> {
                    &&& projects[i].migrated ==> projects[p].migrated
                    &&& projects[i].migrated == projects[p].migrated ==> {
                        &&& !g.contains(projects[i].record.name@) ==> !g.contains(projects[p].record.name@)
                        &&& g.contains(projects[i].record.name@) == g.contains(projects[p].record.name@) ==> !lex_lt(
                            projects[i].record.name@,
                            projects[p].record.name@,
                        )
                    }
                },
        },
    decreases projects.len(),
{
    if projects.len() > 0 {
        let front = projects.drop_last();
        law_the_best_project_stays(front, key, g);
        let n = projects.len() - 1;
        assert(projects[n] == projects.last());
        assert(forall|i: int| 0 <= i < n ==> #[trigger] projects[i] == front[i]);
        let last = projects.last();
        crate::text::lemma_lex_irreflexive(last.record.name@);
        if holds_only(last.record, key) && primary(front, key, g) is Some {
            let b = primary(front, key, g)->0;
            let best = front[b];
            assert forall|i: int| 0 <= i < n && holds_only((#[trigger] projects[i]).record, key) && lex_lt(
                projects[i].record.name@,
                last.record.name@,
            ) && lex_lt(last.record.name@, best.record.name@) implies lex_lt(projects[i].record.name@, best.record.name@) by {
                crate::text::lemma_lex_transitive(projects[i].record.name@, last.record.name@, best.record.name@);
            }
            assert forall|i: int| 0 <= i < n && holds_only((#[trigger] projects[i]).record, key) implies {
                &&& projects[i].migrated ==> best.migrated
                &&& projects[i].migrated == best.migrated ==> {
                    &&& !g.contains(projects[i].record.name@) ==> !g.contains(best.record.name@)
                    &&& g.contains(projects[i].record.name@) == g.contains(best.record.name@) ==> !lex_lt(
                        projects[i].record.name@,
                        best.record.name@,
                    )
                }
            } by {
                assert(holds_only(front[i].record, key));
            }
        }
    }
}

/// A project is taken for a copy of the one that stays only where nothing
/// about it was changed: it has a made name and a made title, and the workflow,
/// the issues and the repositories of a made one; and never the one that stays.
pub proof fn law_copies_are_unchanged(project: ProjectRecord, stays: Seq<char>, g: GeneratedNames, spec: ProjectDefinition)
    requires
        is_duplicate(project, stays, g, spec),
    ensures
        project.name@ != stays,
        g.names@.contains(project.name@),
        g.display_names@.contains(project.definition.display_name@),
        project.definition.default_workflow_ref@ == spec.default_workflow_ref@,
        opt(project.definition.issue_source) == opt(spec.issue_source),
        project.definition.repositories@.len() == spec.repositories@.len(),
        forall|i: int|
            0 <= i < spec.repositories@.len() ==> (#[trigger] project.definition.repositories@[i]).repo@ == spec.repositories@[i].repo@
                && opt(project.definition.repositories@[i].subpath) == opt(spec.repositories@[i].subpath) && opt(
                project.definition.repositories@[i].default_branch,
            ) == opt(spec.repositories@[i].default_branch),
{
    assert forall|i: int| 0 <= i < spec.repositories@.len() implies (#[trigger] project.definition.repositories@[i]).repo@
        == spec.repositories@[i].repo@ && opt(project.definition.repositories@[i].subpath) == opt(spec.repositories@[i].subpath) && opt(
        project.definition.repositories@[i].default_branch,
    ) == opt(spec.repositories@[i].default_branch) by {
        assert(crate::whole_repository::same_repository(project.definition.repositories@[i], spec.repositories@[i]));
    }
}

/// A repository that moved away is left alone while some project points to
/// it, is marked as superseded while there is a checkout of it, and is deleted
/// otherwise.
pub proof fn law_repositories_in_use_are_left_alone(projects: Seq<ProjectRecord>, checkouts: Seq<Seq<char>>, key: Seq<char>)
    ensures
        ({
            let used = exists|i: int, j: int|
                0 <= i < projects.len() && 0 <= j < (#[trigger] projects[i]).definition.repositories@.len() && (
                #[trigger] projects[i].definition.repositories@[j]).repo@ == key;
            let checked_out = exists|c: int| 0 <= c < checkouts.len() && #[trigger] checkouts[c] == key;
            &&& old_repository(projects, checkouts, key) == OldRepository::Leave <==> used
            &&& old_repository(projects, checkouts, key) == OldRepository::Supersede <==> !used && checked_out
            &&& old_repository(projects, checkouts, key) == OldRepository::Delete <==> !used && !checked_out
        }),
{
    assert(holds(checkouts, key) <==> exists|c: int| 0 <= c < checkouts.len() && #[trigger] checkouts[c] == key);
}

/// The names for a project are tried one after the other until one is free or
/// has this project already; any other failure ends it.
pub proof fn law_names_are_tried_in_turn(step: NameStep, key: Seq<char>, candidates: int, replies: Seq<CreateReply>)
    requires
        name_step_of(step, key, candidates, replies),
        replies.len() <= candidates <= usize::MAX,
    ensures
        step matches NameStep::Try { candidate } ==> candidate == replies.len() && candidate < candidates && (replies.len() > 0 ==> (
        replies.last() matches CreateReply::Taken { whole } && !whole)),
        step is Created <==> replies.len() > 0 && replies.last() is Created,
        step matches NameStep::Reuse { candidate } ==> candidate == replies.len() - 1 && (replies.last() matches CreateReply::Taken {
            whole,
        } && whole),
        replies.len() > 0 && replies.last() is Failed ==> step is Fail,
        replies.len() == 0 && candidates > 0 ==> (step matches NameStep::Try { candidate } && candidate == 0),
{
}

/// A project that is declared has the members that it declares, each under its
/// alias and in its roles, whole and at no branch of its own.
pub proof fn law_declared_projects_have_their_members(d: ProjectDefinition, name: Seq<char>, members: Seq<DeclaredMember>, i: int)
    requires
        declared_definition(d, name, members),
        0 <= i < members.len(),
    ensures
        d.display_name@ == name,
        d.issue_source is None,
        d.repositories@.len() == members.len(),
        d.repositories@[i].repo@ == members[i].repo@,
        d.repositories@[i].alias matches Some(alias) && alias@ == members[i].alias@,
        strs(d.repositories@[i].roles@) == strs(members[i].roles@),
        d.repositories@[i].subpath is None && d.repositories@[i].default_branch is None,
{
    let r = d.repositories@[i];
    assert(r.repo@ == members[i].repo@);
}

proof fn lemma_only_members_subpaths(members: Seq<ProjectMember>, repo: Seq<char>, path: Seq<char>)
    requires
        holds(subpaths_of(members, repo), path),
    ensures
        exists|i: int|
            0 <= i < members.len() && (#[trigger] members[i]).repo@ == repo && members[i].code && opt(members[i].subpath) == Some(path),
    decreases members.len(),
{
    let all = subpaths_of(members, repo);
    let k = choose|k: int| 0 <= k < all.len() && #[trigger] all[k] == path;
    let front = members.drop_last();
    let before = subpaths_of(front, repo);
    let n = members.len() - 1;
    assert(members[n] == members.last());
    if k < before.len() {
        assert(before[k] == path);
        lemma_only_members_subpaths(front, repo, path);
        let i = choose|i: int|
            0 <= i < front.len() && (#[trigger] front[i]).repo@ == repo && front[i].code && opt(front[i].subpath) == Some(path);
        assert(members[i] == front[i]);
    }
}

/// A project brings of a repository only the parts that one of its members for
/// code names.
pub proof fn law_projects_bring_only_the_parts_they_name(list: Vec<RepositorySnapshot>, project: Seq<char>, members: Seq<ProjectMember>, k: int, path: Seq<char>)
    requires
        snapshots_of(Ok(list), project, members),
        0 <= k < list@.len(),
        holds(strs(list@[k].subpaths@), path),
    ensures
        exists|i: int|
            0 <= i < members.len() && (#[trigger] members[i]).repo@ == list@[k].repo_ref@ && members[i].code && opt(members[i].subpath)
                == Some(path),
{
    let repos = sorted_unique(resolved_repos(members));
    assert(snapshot_of(list@[k], members, repos[k]));
    lemma_sorted_unique_exists(subpaths_of(members, repos[k]));
    lemma_only_members_subpaths(members, repos[k], path);
}

} // verus!
