//! One pass over the projects of a repository: which of them go, which move to
//! the repository's present key, which one stands for it, and what becomes of
//! the repositories it takes the place of.
use vstd::prelude::*;

use crate::address::{ints, picked};
use crate::ordered::OrderedSet;
use crate::text::str_eq;
use crate::whole_repository::{
    definition_step, dispose_of_repository, duplicate_project, generated_names_of, generated_project_names, is_duplicate, is_obsolete,
    migratable, migratable_keys, migrate_project, moved_repositories, must_move, obsolete_mirror, old_repository, primary,
    primary_project, reconcile_whole_repository_project_definition, superseded, superseded_keys, DefinedRepository, DefinitionStep,
    GeneratedNames, KnownRepository, ListedProject, OldRepository, PathKey, ProjectDefinition, ProjectRecord,
};

verus! {

/// A repository that was inspected, and what is on record around it.
#[derive(Debug)]
pub struct InspectedRepository {
    pub key: String,
    pub leaf_slug: String,
    pub catalog_slug: String,
    pub known: Vec<KnownRepository>,
    pub paths: Vec<PathKey>,
    pub observed: Vec<PathKey>,
}

/// A project that is moved, and what its repositories become.
#[derive(Debug, PartialEq, Eq)]
pub struct MovedProject {
    pub at: usize,
    pub repositories: Vec<DefinedRepository>,
}

/// What is done with the projects that are on record.
#[derive(Debug)]
pub struct MigrationPlan {
    /// The repositories that the inspected one takes the place of.
    pub superseded: OrderedSet,
    /// Those of them that projects are moved away from.
    pub migrating: OrderedSet,
    pub names: GeneratedNames,
    /// The projects that are deleted.
    pub obsolete: Vec<usize>,
    pub moved: Vec<MovedProject>,
}

/// Whether the `i`th project is deleted.
pub open spec fn goes(projects: Seq<ProjectRecord>, g: GeneratedNames, migrating: Set<Seq<char>>, known: Seq<KnownRepository>) -> spec_fn(int) -> bool {
    |i: int| is_obsolete(projects[i], g, migrating, known)
}

/// Whether the `i`th project stays and is moved.
pub open spec fn moves(projects: Seq<ProjectRecord>, g: GeneratedNames, migrating: Set<Seq<char>>, known: Seq<KnownRepository>) -> spec_fn(int) -> bool {
    |i: int| !is_obsolete(projects[i], g, migrating, known) && must_move(projects[i], migrating)
}

/// Which projects are moved.
pub open spec fn moved_at(moved: Seq<MovedProject>) -> Seq<int> {
    moved.map_values(|m: MovedProject| m.at as int)
}

/// `plan` says what is done with the projects.
pub open spec fn planned_migration(plan: MigrationPlan, repository: InspectedRepository, projects: Seq<ProjectRecord>) -> bool {
    let n = projects.len() as int;
    let migrating = migratable(repository.key@, repository.known@, repository.paths@, repository.observed@);
    &&& plan.superseded@ == superseded(repository.key@, repository.known@, repository.paths@, repository.observed@)
    &&& plan.migrating@ == migrating
    &&& ints(plan.obsolete@) == picked(n, goes(projects, plan.names, migrating, repository.known@))
    &&& moved_at(plan.moved@) == picked(n, moves(projects, plan.names, migrating, repository.known@))
    &&& forall|k: int|
        0 <= k < plan.moved@.len() ==> (#[trigger] plan.moved@[k]).at < projects.len() && moved_repositories(
            plan.moved@[k].repositories@,
            projects[plan.moved@[k].at as int].definition.repositories@,
            repository.key@,
            migrating,
        )
}

/// `e` says why there are no names for the projects of a repository and of those
/// that projects are moved away from.
pub open spec fn unnamed(e: String, repository: InspectedRepository, migrating: OrderedSet) -> bool {
    &&& migrating@ == migratable(repository.key@, repository.known@, repository.paths@, repository.observed@)
    &&& generated_names_of(
        Err(e),
        repository.leaf_slug@,
        repository.catalog_slug@,
        repository.key@,
        repository.known@,
        migrating.items(),
    )
}

/// `e` says why there are no names for the projects of a repository.
pub open spec fn cannot_be_named(e: String, repository: InspectedRepository) -> bool {
    exists|migrating: OrderedSet| #[trigger] unnamed(e, repository, migrating)
}

/// Plans what is done with the projects on record once a repository was
/// inspected. Fails where no name can be made from a slug.
pub fn plan_migration(repository: &InspectedRepository, projects: &Vec<ProjectRecord>) -> (r: Result<MigrationPlan, String>)
    ensures
        match r {
            Ok(plan) => planned_migration(plan, *repository, projects@) && generated_names_of(
                Ok(plan.names),
                repository.leaf_slug@,
                repository.catalog_slug@,
                repository.key@,
                repository.known@,
                plan.migrating.items(),
            ),
            Err(e) => cannot_be_named(e, *repository),
        },
{
    let superseded = superseded_keys(repository.key.as_str(), &repository.known, &repository.paths, &repository.observed);
    let migrating = migratable_keys(repository.key.as_str(), &repository.known, &repository.paths, &repository.observed);
    let named = generated_project_names(
        repository.leaf_slug.as_str(),
        repository.catalog_slug.as_str(),
        repository.key.as_str(),
        &repository.known,
        &migrating,
    );
    let names = match named {
        Ok(names) => names,
        Err(e) => {
            assert(unnamed(e, *repository, migrating));
            assert(cannot_be_named(e, *repository));
            return Err(e);
        },
    };
    let mut obsolete: Vec<usize> = Vec::new();
    let mut moved: Vec<MovedProject> = Vec::new();
    let ghost away = goes(projects@, names, migrating@, repository.known@);
    let ghost along = moves(projects@, names, migrating@, repository.known@);
    let mut i: usize = 0;
    assert(ints(obsolete@) =~= picked(0, away));
    assert(moved_at(moved@) =~= picked(0, along));
    while i < projects.len()
        invariant
            i <= projects@.len(),
            away == goes(projects@, names, migrating@, repository.known@),
            along == moves(projects@, names, migrating@, repository.known@),
            ints(obsolete@) == picked(i as int, away),
            moved_at(moved@) == picked(i as int, along),
            forall|k: int|
                0 <= k < moved@.len() ==> (#[trigger] moved@[k]).at < projects@.len() && moved_repositories(
                    moved@[k].repositories@,
                    projects@[moved@[k].at as int].definition.repositories@,
                    repository.key@,
                    migrating@,
                ),
        decreases projects.len() - i,
    {
        let project = &projects[i];
        assert(away(i as int) == is_obsolete(*project, names, migrating@, repository.known@));
        assert(along(i as int) == (!is_obsolete(*project, names, migrating@, repository.known@) && must_move(
            *project,
            migrating@,
        )));
        if obsolete_mirror(project, &names, &migrating, &repository.known) {
            let ghost was = ints(obsolete@);
            obsolete.push(i);
            assert(ints(obsolete@) =~= was.push(i as int));
        } else {
            match migrate_project(project, repository.key.as_str(), &migrating) {
                Some(repositories) => {
                    let ghost was = moved_at(moved@);
                    moved.push(MovedProject { at: i, repositories });
                    assert(moved_at(moved@) =~= was.push(i as int));
                },
                None => {},
            }
        }
        i = i + 1;
    }
    Ok(MigrationPlan { superseded, migrating, names, obsolete, moved })
}

/// A project that is moved refers to none of the repositories it is moved away
/// from.
pub proof fn law_moved_projects_leave_the_old_repository(
    after: Seq<DefinedRepository>,
    before: Seq<DefinedRepository>,
    key: Seq<char>,
    known: Seq<KnownRepository>,
    paths: Seq<PathKey>,
    observed: Seq<PathKey>,
    i: int,
)
    requires
        moved_repositories(after, before, key, migratable(key, known, paths, observed)),
        0 <= i < after.len(),
    ensures
        !migratable(key, known, paths, observed).contains(after[i].repo@),
{
}

/// No project is both deleted and moved.
pub proof fn law_each_project_has_one_fate(plan: MigrationPlan, repository: InspectedRepository, projects: Seq<ProjectRecord>, at: int)
    requires
        planned_migration(plan, repository, projects),
        ints(plan.obsolete@).contains(at),
    ensures
        !moved_at(plan.moved@).contains(at),
{
    let migrating = migratable(repository.key@, repository.known@, repository.paths@, repository.observed@);
    let n = projects.len() as int;
    let away = goes(projects, plan.names, migrating, repository.known@);
    let along = moves(projects, plan.names, migrating, repository.known@);
    crate::address::lemma_picked(n, away);
    crate::address::lemma_picked(n, along);
    let x = choose|x: int| 0 <= x < ints(plan.obsolete@).len() && ints(plan.obsolete@)[x] == at;
    assert(away(picked(n, away)[x]));
    if moved_at(plan.moved@).contains(at) {
        let y = choose|y: int| 0 <= y < moved_at(plan.moved@).len() && moved_at(plan.moved@)[y] == at;
        assert(along(picked(n, along)[y]));
    }
}

/// Which project stands for the repository, and what else is done about it.
#[derive(Debug, PartialEq, Eq)]
pub struct PrimaryPlan {
    pub primary: Option<usize>,
    /// What is done with the definition of that project.
    pub step: DefinitionStep,
    /// The projects that say nothing besides, and are deleted.
    pub duplicates: Vec<usize>,
}

/// Whether the `i`th project is a duplicate of the primary one.
pub open spec fn repeats(projects: Seq<ListedProject>, at: int, g: GeneratedNames, spec: ProjectDefinition) -> spec_fn(int) -> bool {
    |i: int| is_duplicate(projects[i].record, projects[at].record.name@, g, spec)
}

/// Finds the project that stands for the repository once the others moved.
pub fn plan_primary(key: &str, projects: &Vec<ListedProject>, g: &GeneratedNames, spec: &ProjectDefinition) -> (r: PrimaryPlan)
    ensures
        match primary(projects@, key@, g.names@) {
            None => r.primary is None && r.step == DefinitionStep::Keep && r.duplicates@.len() == 0,
            Some(at) => {
                &&& 0 <= at < projects@.len()
                &&& r.primary == Some(at as usize)
                &&& r.step == definition_step(projects@[at].record)
                &&& ints(r.duplicates@) == picked(projects@.len() as int, repeats(projects@, at, *g, *spec))
            },
        },
{
    let at = match primary_project(projects, key, &g.names) {
        Some(at) => at,
        None => {
            return PrimaryPlan { primary: None, step: DefinitionStep::Keep, duplicates: Vec::new() };
        },
    };
    let step = reconcile_whole_repository_project_definition(&projects[at].record);
    let name = projects[at].record.name.as_str();
    let mut duplicates: Vec<usize> = Vec::new();
    let ghost again = repeats(projects@, at as int, *g, *spec);
    let mut i: usize = 0;
    assert(ints(duplicates@) =~= picked(0, again));
    while i < projects.len()
        invariant
            i <= projects@.len(),
            at < projects@.len(),
            name@ == projects@[at as int].record.name@,
            again == repeats(projects@, at as int, *g, *spec),
            ints(duplicates@) == picked(i as int, again),
        decreases projects.len() - i,
    {
        assert(again(i as int) == is_duplicate(projects@[i as int].record, name@, *g, *spec));
        if duplicate_project(&projects[i].record, name, g, spec) {
            let ghost was = ints(duplicates@);
            duplicates.push(i);
            assert(ints(duplicates@) =~= was.push(i as int));
        }
        i = i + 1;
    }
    PrimaryPlan { primary: Some(at), step, duplicates }
}

/// The project that stands for a repository is never deleted as a duplicate.
pub proof fn law_the_primary_project_stays(projects: Seq<ListedProject>, at: int, g: GeneratedNames, spec: ProjectDefinition)
    requires
        0 <= at < projects.len(),
    ensures
        !picked(projects.len() as int, repeats(projects, at, g, spec)).contains(at),
{
    let again = repeats(projects, at, g, spec);
    let n = projects.len() as int;
    crate::address::lemma_picked(n, again);
    if picked(n, again).contains(at) {
        let x = choose|x: int| 0 <= x < picked(n, again).len() && picked(n, again)[x] == at;
        assert(again(picked(n, again)[x]));
    }
}

/// Says of each repository that projects were moved away from what becomes of
/// it.
pub fn plan_disposal(migrating: &OrderedSet, projects: &Vec<ProjectRecord>, checkouts: &Vec<String>) -> (r: Vec<OldRepository>)
    ensures
        r@.len() == migrating.items().len(),
        forall|i: int|
            0 <= i < r@.len() ==> #[trigger] r@[i] == old_repository(
                projects@,
                crate::text::strs(checkouts@),
                migrating.items()[i],
            ),
{
    let mut r: Vec<OldRepository> = Vec::new();
    let n: usize = migrating.len();
    let mut i: usize = 0;
    while i < n
        invariant
            i <= n,
            n == migrating.items().len(),
            r@.len() == i,
            forall|k: int|
                0 <= k < i ==> #[trigger] r@[k] == old_repository(
                    projects@,
                    crate::text::strs(checkouts@),
                    migrating.items()[k],
                ),
        decreases n - i,
    {
        r.push(dispose_of_repository(projects, checkouts, migrating.item(i).as_str()));
        i = i + 1;
    }
    r
}

/// What a repository is known as.
#[derive(Debug, PartialEq, Eq)]
pub enum RepositoryIdentity {
    Remote { canonical_remote: String },
    /// On one host only; `common_parent` is the directory that its git
    /// directory lies in, where there is one.
    Local { host_ref: String, common_parent: Option<String> },
}

/// How the identity of a repository is shown.
pub fn repository_identity_display(identity: &RepositoryIdentity) -> (r: String)
    ensures
        r@ == match *identity {
            RepositoryIdentity::Remote { canonical_remote } => canonical_remote@,
            RepositoryIdentity::Local { .. } => "local"@,
        },
{
    match identity {
        RepositoryIdentity::Remote { canonical_remote } => canonical_remote.clone(),
        RepositoryIdentity::Local { .. } => "local".to_owned(),
    }
}

/// Whether a repository is the local one at a checkout.
pub fn local_repository_matches_checkout(identity: &RepositoryIdentity, host_ref: &str, path: &str) -> (r: bool)
    ensures
        r == match *identity {
            RepositoryIdentity::Remote { .. } => false,
            RepositoryIdentity::Local { host_ref: host, common_parent } => host@ == host_ref@ && crate::text::opt(
                common_parent,
            ) == Some(path@),
        },
{
    match identity {
        RepositoryIdentity::Remote { .. } => false,
        RepositoryIdentity::Local { host_ref: host, common_parent } => str_eq(host.as_str(), host_ref) && crate::text::opt_is(
            common_parent,
            path,
        ),
    }
}

} // verus!
