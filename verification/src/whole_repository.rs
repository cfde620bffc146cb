//! The project that stands for a whole repository: adding it, keeping exactly
//! one, and moving it along when the repository's identity changes.
use vstd::prelude::*;

use crate::naming::{
    checked_project_name, normalize_project_name, project_name, project_target_syntax, target_syntax, validate_project_name,
    ProjectTargetSyntax,
};
use crate::ordered::{sort_dedup, sorted_unique, OrderedSet};
use crate::text::{
    chars_of, concat2, concat3, concat4, concat5, concat6, ends, holds, join, join_strs, lex_lt, opt, opt_clone, opt_eq,
    str_ends, str_eq, str_lt, string_of, strs, strs_clone, strs_hold,
};

verus! {

/// The workflow that a generated project runs.
pub open spec fn generated_workflow() -> Seq<char> {
    "single-agent-trusted"@
}

/// A repository of a project's definition.
#[derive(Debug, Clone, PartialEq, Eq)]
pub struct DefinedRepository {
    pub repo: String,
    pub alias: Option<String>,
    pub roles: Vec<String>,
    pub subpath: Option<String>,
    pub default_branch: Option<String>,
}

/// What a project is defined as.
#[derive(Debug, PartialEq, Eq)]
pub struct ProjectDefinition {
    pub display_name: String,
    pub default_workflow_ref: String,
    pub issue_source: Option<String>,
    pub repositories: Vec<DefinedRepository>,
}

/// A project record.
#[derive(Debug, PartialEq, Eq)]
pub struct ProjectRecord {
    pub name: String,
    /// Whether a declaration in a repository manages it.
    pub declared: bool,
    /// Whether it carries the mark of a generated project.
    pub generated: bool,
    pub definition: ProjectDefinition,
}

/// A whole repository and nothing else.
pub open spec fn is_whole(repositories: Seq<DefinedRepository>, key: Seq<char>) -> bool {
    repositories.len() == 1 && repositories[0].repo@ == key && repositories[0].subpath is None
}

pub fn is_whole_repository_project(repositories: &Vec<DefinedRepository>, key: &str) -> (r: bool)
    ensures
        r == is_whole(repositories@, key@),
{
    repositories.len() == 1 && str_eq(repositories[0].repo.as_str(), key) && repositories[0].subpath.is_none()
}

/// `d` is the generated definition of a repository's project.
pub open spec fn generated_definition(d: ProjectDefinition, key: Seq<char>, display_name: Seq<char>) -> bool {
    &&& d.display_name@ == display_name
    &&& d.default_workflow_ref@ == generated_workflow()
    &&& d.issue_source is None
    &&& d.repositories@.len() == 1
    &&& d.repositories@[0].repo@ == key
    &&& d.repositories@[0].alias is None
    &&& d.repositories@[0].roles@.len() == 0
    &&& d.repositories@[0].subpath is None
    &&& d.repositories@[0].default_branch is None
}

pub fn whole_repository_project_spec(key: &str, display_name: &str) -> (r: ProjectDefinition)
    ensures
        generated_definition(r, key@, display_name@),
        is_whole(r.repositories@, key@),
{
    let mut repositories: Vec<DefinedRepository> = Vec::new();
    repositories.push(
        DefinedRepository {
            repo: key.to_owned(),
            alias: None,
            roles: Vec::new(),
            subpath: None,
            default_branch: None,
        },
    );
    ProjectDefinition {
        display_name: display_name.to_owned(),
        default_workflow_ref: "single-agent-trusted".to_owned(),
        issue_source: None,
        repositories,
    }
}

/// A member of a project, as a declaration has it.
#[derive(Debug, PartialEq, Eq)]
pub struct DeclaredMember {
    pub repo: String,
    pub alias: String,
    pub roles: Vec<String>,
}

/// `d` is the definition of a project that is declared: its members in the
/// order they were declared in, each whole and under its alias.
pub open spec fn declared_definition(d: ProjectDefinition, name: Seq<char>, members: Seq<DeclaredMember>) -> bool {
    &&& d.display_name@ == name
    &&& d.default_workflow_ref@ == generated_workflow()
    &&& d.issue_source is None
    &&& d.repositories@.len() == members.len()
    &&& forall|i: int|
        0 <= i < members.len() ==> {
            let r = #[trigger] d.repositories@[i];
            &&& r.repo@ == members[i].repo@
            &&& opt(r.alias) == Some(members[i].alias@)
            &&& strs(r.roles@) == strs(members[i].roles@)
            &&& r.subpath is None
            &&& r.default_branch is None
        }
}

/// The definition of a project that is declared.
pub fn declared_project_spec(name: &str, members: &Vec<DeclaredMember>) -> (d: ProjectDefinition)
    ensures
        declared_definition(d, name@, members@),
{
    let mut repositories: Vec<DefinedRepository> = Vec::new();
    let mut i: usize = 0;
    while i < members.len()
        invariant
            i <= members@.len(),
            repositories@.len() == i,
            forall|k: int|
                0 <= k < i ==> {
                    let r = #[trigger] repositories@[k];
                    &&& r.repo@ == members@[k].repo@
                    &&& opt(r.alias) == Some(members@[k].alias@)
                    &&& strs(r.roles@) == strs(members@[k].roles@)
                    &&& r.subpath is None
                    &&& r.default_branch is None
                },
        decreases members.len() - i,
    {
        let m = &members[i];
        repositories.push(
            DefinedRepository {
                repo: m.repo.clone(),
                alias: Some(m.alias.clone()),
                roles: strs_clone(&m.roles),
                subpath: None,
                default_branch: None,
            },
        );
        i = i + 1;
    }
    ProjectDefinition {
        display_name: name.to_owned(),
        default_workflow_ref: "single-agent-trusted".to_owned(),
        issue_source: None,
        repositories,
    }
}

/// The texts that occur, each once, where it first does.
pub open spec fn once_each(s: Seq<Seq<char>>) -> Seq<Seq<char>>
    decreases s.len(),
{
    if s.len() == 0 {
        Seq::empty()
    } else {
        let before = once_each(s.drop_last());
        if holds(before, s.last()) {
            before
        } else {
            before.push(s.last())
        }
    }
}

/// The first eight characters of a key.
pub open spec fn key_suffix(key: Seq<char>) -> Seq<char> {
    if key.len() <= 8 {
        key
    } else {
        key.take(8)
    }
}

/// The names a repository's project may get, best first.
pub open spec fn candidate_names(leaf: Seq<char>, catalog: Seq<char>, key: Seq<char>) -> Result<Seq<Seq<char>>, Seq<char>> {
    match project_name(leaf) {
        Err(e) => Err(e),
        Ok(display) => match project_name(catalog) {
            Err(e) => Err(e),
            Ok(catalog) => Ok(once_each(seq![display, catalog, catalog + "-"@ + key_suffix(key)])),
        },
    }
}

fn dedup_in_order(v: &Vec<String>) -> (r: Vec<String>)
    ensures
        strs(r@) == once_each(strs(v@)),
{
    let mut r: Vec<String> = Vec::new();
    let ghost all = strs(v@);
    let mut i: usize = 0;
    assert(strs(r@) =~= once_each(all.take(0)));
    while i < v.len()
        invariant
            i <= v@.len(),
            all == strs(v@),
            strs(r@) == once_each(all.take(i as int)),
        decreases v.len() - i,
    {
        assert(all.take(i + 1).drop_last() =~= all.take(i as int));
        assert(all.take(i + 1).last() == v@[i as int]@);
        if !strs_hold(&r, v[i].as_str()) {
            let ghost was = strs(r@);
            r.push(v[i].clone());
            assert(strs(r@) =~= was.push(v@[i as int]@));
        }
        i = i + 1;
    }
    assert(all.take(all.len() as int) =~= all);
    r
}

pub fn whole_repository_project_names(leaf_slug: &str, catalog_slug: &str, key: &str) -> (r: Result<Vec<String>, String>)
    ensures
        match r {
            Ok(v) => candidate_names(leaf_slug@, catalog_slug@, key@) == Ok::<Seq<Seq<char>>, Seq<char>>(strs(v@)),
            Err(e) => candidate_names(leaf_slug@, catalog_slug@, key@) == Err::<Seq<Seq<char>>, Seq<char>>(e@),
        },
{
    let display = normalize_project_name(leaf_slug)?;
    let catalog = normalize_project_name(catalog_slug)?;
    let x = chars_of(key);
    let n: usize = if x.len() <= 8 {
        x.len()
    } else {
        8
    };
    let suffix = string_of(&x, 0, n);
    assert(suffix@ =~= key_suffix(key@));
    let last = concat3(catalog.as_str(), "-", suffix.as_str());
    let mut all: Vec<String> = Vec::new();
    all.push(display);
    all.push(catalog);
    all.push(last);
    assert(strs(all@) =~= seq![display@, catalog@, last@]);
    Ok(dedup_in_order(&all))
}

/// Whether the path that a project is added by is to be inspected.
pub open spec fn path_step(target: Seq<char>, exists_here: bool) -> Result<bool, Seq<char>> {
    if target_syntax(target) != ProjectTargetSyntax::QualifiedSlug && exists_here {
        Ok(true)
    } else if target_syntax(target) == ProjectTargetSyntax::ExplicitPath {
        Err("repository path "@ + target + " does not exist"@)
    } else {
        Ok(false)
    }
}

pub fn project_add_path(target: &str, exists_here: bool) -> (r: Result<bool, String>)
    ensures
        match r {
            Ok(inspect) => path_step(target@, exists_here) == Ok::<bool, Seq<char>>(inspect),
            Err(e) => path_step(target@, exists_here) == Err::<bool, Seq<char>>(e@),
        },
{
    let syntax = project_target_syntax(target);
    if syntax != ProjectTargetSyntax::QualifiedSlug && exists_here {
        Ok(true)
    } else if syntax == ProjectTargetSyntax::ExplicitPath {
        Err(concat3("repository path ", target, " does not exist"))
    } else {
        Ok(false)
    }
}

/// A catalogued repository that a target names.
#[derive(Debug, PartialEq, Eq)]
pub struct CatalogMatch {
    pub key: String,
    pub key_error: Option<String>,
}

/// The keys of the matches.
pub open spec fn match_keys(catalog: Seq<CatalogMatch>) -> Seq<Seq<char>> {
    Seq::new(catalog.len(), |i: int| catalog[i].key@)
}

/// The first thing wrong with the matches.
pub open spec fn match_problem(catalog: Seq<CatalogMatch>) -> Option<Seq<char>>
    decreases catalog.len(),
{
    if catalog.len() == 0 {
        None
    } else if catalog[0].key_error is Some {
        Some(catalog[0].key_error->0@)
    } else {
        match_problem(catalog.drop_first())
    }
}

/// The repository that a target means, and whether it was found at a path.
pub open spec fn project_target(
    target: Seq<char>,
    path_key: Option<Seq<char>>,
    catalog: Seq<CatalogMatch>,
    remote_given: bool,
) -> Result<(Seq<char>, bool), Seq<char>> {
    let explicit = target_syntax(target) == ProjectTargetSyntax::ExplicitPath;
    let keys = if explicit {
        Seq::empty()
    } else {
        sorted_unique(match_keys(catalog))
    };
    if !explicit && match_problem(catalog) is Some {
        Err(match_problem(catalog)->0)
    } else if keys.len() > 1 {
        Err("repository slug `"@ + target + "` is ambiguous: "@ + join(keys, ", "@))
    } else if remote_given && path_key is None && keys.len() > 0 {
        Err("--remote can only select identity while inspecting a local repository path"@)
    } else {
        match path_key {
            Some(key) => if keys.len() > 0 && key != keys[0] {
                Err(
                    "`"@ + target + "` resolves to different path and catalog repositories: "@ + key + " and "@ + keys[0],
                )
            } else {
                Ok((key, true))
            },
            None => if keys.len() > 0 {
                Ok((keys[0], false))
            } else {
                Err("`"@ + target + "` is neither a repository path nor a repository catalog slug"@)
            },
        }
    }
}

/// Which repository a project is added for. `path_key` is the repository
/// found at the target as a path, where it was inspected.
pub fn project_add_target(
    target: &str,
    path_key: &Option<String>,
    catalog: &Vec<CatalogMatch>,
    remote_given: bool,
) -> (r: Result<(String, bool), String>)
    ensures
        match r {
            Ok((key, at_path)) => project_target(target@, opt(*path_key), catalog@, remote_given) == Ok::<
                (Seq<char>, bool),
                Seq<char>,
            >((key@, at_path)),
            Err(e) => project_target(target@, opt(*path_key), catalog@, remote_given) == Err::<
                (Seq<char>, bool),
                Seq<char>,
            >(e@),
        },
{
    let explicit = project_target_syntax(target) == ProjectTargetSyntax::ExplicitPath;
    let mut all: Vec<String> = Vec::new();
    if !explicit {
        let mut i: usize = 0;
        assert(catalog@.skip(0) =~= catalog@);
        while i < catalog.len()
            invariant
                i <= catalog@.len(),
                !explicit,
                explicit == (target_syntax(target@) == ProjectTargetSyntax::ExplicitPath),
                match_problem(catalog@) == match_problem(catalog@.skip(i as int)),
                all@.len() == i,
                forall|k: int| 0 <= k < i ==> (#[trigger] all@[k])@ == catalog@[k].key@,
            decreases catalog.len() - i,
        {
            assert(catalog@.skip(i as int)[0] == catalog@[i as int]);
            assert(catalog@.skip(i as int).drop_first() =~= catalog@.skip(i + 1));
            match &catalog[i].key_error {
                Some(e) => {
                    return Err(e.clone());
                },
                None => {},
            }
            all.push(catalog[i].key.clone());
            i = i + 1;
        }
        assert(strs(all@) =~= match_keys(catalog@));
    }
    let keys = if explicit {
        let none: Vec<String> = Vec::new();
        assert(strs(none@) =~= Seq::<Seq<char>>::empty());
        none
    } else {
        sort_dedup(&all)
    };
    assert(strs(keys@).len() == keys@.len());
    if keys.len() > 1 {
        let joined = join_strs(&keys, ", ");
        return Err(concat4("repository slug `", target, "` is ambiguous: ", joined.as_str()));
    }
    if remote_given && path_key.is_none() && keys.len() > 0 {
        return Err("--remote can only select identity while inspecting a local repository path".to_owned());
    }
    match path_key {
        Some(key) => {
            if keys.len() > 0 {
                assert(strs(keys@)[0] == keys@[0]@);
                if !str_eq(key.as_str(), keys[0].as_str()) {
                    return Err(
                        concat6(
                            "`",
                            target,
                            "` resolves to different path and catalog repositories: ",
                            key.as_str(),
                            " and ",
                            keys[0].as_str(),
                        ),
                    );
                }
            }
            Ok((key.clone(), true))
        },
        None => {
            if keys.len() > 0 {
                assert(strs(keys@)[0] == keys@[0]@);
                Ok((keys[0].clone(), false))
            } else {
                Err(concat3("`", target, "` is neither a repository path nor a repository catalog slug"))
            }
        },
    }
}

/// The name of the project that is added, and the one made from its repository.
pub open spec fn added_name(leaf: Seq<char>, explicit: Option<Seq<char>>) -> Result<(Seq<char>, Seq<char>), Seq<char>> {
    match project_name(leaf) {
        Err(e) => Err(e),
        Ok(default) => {
            let name = match explicit {
                Some(name) => name,
                None => default,
            };
            match checked_project_name(name) {
                Err(e) => Err(e),
                Ok(()) => Ok((name, default)),
            }
        },
    }
}

pub fn project_add_name(leaf_slug: &str, explicit_name: &Option<String>) -> (r: Result<(String, String), String>)
    ensures
        match r {
            Ok((name, default)) => added_name(leaf_slug@, opt(*explicit_name)) == Ok::<
                (Seq<char>, Seq<char>),
                Seq<char>,
            >((name@, default@)),
            Err(e) => added_name(leaf_slug@, opt(*explicit_name)) == Err::<(Seq<char>, Seq<char>), Seq<char>>(e@),
        },
{
    let default = normalize_project_name(leaf_slug)?;
    let name = match explicit_name {
        Some(name) => name.clone(),
        None => default.clone(),
    };
    match validate_project_name(name.as_str()) {
        Err(e) => Err(e),
        Ok(()) => Ok((name, default)),
    }
}

/// What is done with an existing whole-repository project. Materialisation
/// is one-way: it marks a project as generated, and never touches what its
/// user defined.
#[derive(Debug, Clone, Copy, PartialEq, Eq, Structural)]
pub enum DefinitionStep {
    Keep,
    /// Mark it as generated, with its definition as it is.
    Mark,
}

pub open spec fn definition_step(project: ProjectRecord) -> DefinitionStep {
    if project.declared || project.generated {
        DefinitionStep::Keep
    } else {
        DefinitionStep::Mark
    }
}

pub fn reconcile_whole_repository_project_definition(project: &ProjectRecord) -> (r: DefinitionStep)
    ensures
        r == definition_step(*project),
{
    if project.declared || project.generated {
        DefinitionStep::Keep
    } else {
        DefinitionStep::Mark
    }
}

/// What adding a project comes to.
#[derive(Debug, Clone, Copy, PartialEq, Eq, Structural)]
pub enum AddStep {
    Create,
    Reuse { step: DefinitionStep },
}

/// What adding a project comes to, where one of the name may exist.
pub open spec fn add_step(
    name: Seq<char>,
    key: Seq<char>,
    display_name: Option<Seq<char>>,
    existing: Option<ProjectRecord>,
) -> Result<AddStep, Seq<char>> {
    match existing {
        None => Ok(AddStep::Create),
        Some(project) => if project.declared {
            Err("project "@ + name + " is managed by a declaration; use project refresh to update it"@)
        } else if !is_whole(project.definition.repositories@, key) {
            Err("project "@ + name + " already exists with a different repository definition"@)
        } else if display_name is Some && display_name->0 != project.definition.display_name@ {
            Err(
                "project "@ + name + " already exists with display name `"@ + project.definition.display_name@
                    + "`; use project apply to change it"@,
            )
        } else {
            Ok(AddStep::Reuse { step: definition_step(project) })
        },
    }
}

pub fn project_add_step(
    name: &str,
    key: &str,
    explicit_display_name: &Option<String>,
    existing: &Option<ProjectRecord>,
) -> (r: Result<AddStep, String>)
    ensures
        match r {
            Ok(step) => add_step(name@, key@, opt(*explicit_display_name), *existing) == Ok::<AddStep, Seq<char>>(step),
            Err(e) => add_step(name@, key@, opt(*explicit_display_name), *existing) == Err::<AddStep, Seq<char>>(e@),
        },
{
    let project = match existing {
        None => {
            return Ok(AddStep::Create);
        },
        Some(project) => project,
    };
    if project.declared {
        return Err(
            concat3("project ", name, " is managed by a declaration; use project refresh to update it"),
        );
    }
    if !is_whole_repository_project(&project.definition.repositories, key) {
        return Err(concat3("project ", name, " already exists with a different repository definition"));
    }
    match explicit_display_name {
        Some(display_name) => {
            if !str_eq(display_name.as_str(), project.definition.display_name.as_str()) {
                return Err(
                    concat5(
                        "project ",
                        name,
                        " already exists with display name `",
                        project.definition.display_name.as_str(),
                        "`; use project apply to change it",
                    ),
                );
            }
        },
        None => {},
    }
    Ok(AddStep::Reuse { step: reconcile_whole_repository_project_definition(project) })
}

/// A catalogued repository, as it bears on one that was inspected.
#[derive(Debug, PartialEq, Eq)]
pub struct KnownRepository {
    pub key: String,
    pub leaf_slug: String,
    pub catalog_slug: String,
    /// Whether the inspected repository declares one of its remotes.
    pub declared: bool,
    /// Whether it is the local repository at the inspected checkout.
    pub same_checkout: bool,
    pub has_remotes: bool,
    pub display: String,
}

/// A path that is tracked or a checkout that was observed, and its repository.
#[derive(Debug, PartialEq, Eq)]
pub struct PathKey {
    /// Whether it is at the inspected path.
    pub here: bool,
    pub key: String,
}

/// Repositories that the inspected one takes the place of.
pub open spec fn superseded(key: Seq<char>, known: Seq<KnownRepository>, paths: Seq<PathKey>, observed: Seq<PathKey>) -> Set<Seq<char>> {
    Set::new(
        |k: Seq<char>|
            k != key && (previously(paths, k) || previously(observed, k) || replaces(known, k)),
    )
}

/// Whether the path was last known as the repository.
pub open spec fn previously(paths: Seq<PathKey>, k: Seq<char>) -> bool {
    exists|i: int| 0 <= i < paths.len() && (#[trigger] paths[i]).here && paths[i].key@ == k
}

/// Whether the inspected repository is the catalogued one under another key.
pub open spec fn replaces(known: Seq<KnownRepository>, k: Seq<char>) -> bool {
    exists|i: int|
        0 <= i < known.len() && (#[trigger] known[i]).key@ == k && (known[i].same_checkout || known[i].declared)
}

/// Whether the inspected repository declares the catalogued one's remote.
pub open spec fn declares(known: Seq<KnownRepository>, k: Seq<char>) -> bool {
    exists|i: int| 0 <= i < known.len() && (#[trigger] known[i]).key@ == k && known[i].declared
}

/// Whether another path is known as the repository.
pub open spec fn tracked_elsewhere(paths: Seq<PathKey>, k: Seq<char>) -> bool {
    exists|i: int| 0 <= i < paths.len() && !(#[trigger] paths[i]).here && paths[i].key@ == k
}

/// The repositories that projects are moved away from: those taken the place
/// of that no other path still tracks, and those declared to be the same.
pub open spec fn migratable(key: Seq<char>, known: Seq<KnownRepository>, paths: Seq<PathKey>, observed: Seq<PathKey>) -> Set<Seq<char>> {
    Set::new(
        |k: Seq<char>|
            (superseded(key, known, paths, observed).contains(k) && !tracked_elsewhere(paths, k)) || (k != key
                && declares(known, k)),
    )
}

fn add_here(set: &mut OrderedSet, key: &str, paths: &Vec<PathKey>)
    ensures
        final(set)@ == old(set)@.union(Set::new(|k: Seq<char>| k != key@ && previously(paths@, k))),
{
    let ghost start = set@;
    let mut i: usize = 0;
    assert(set@ =~= start.union(Set::new(|k: Seq<char>| k != key@ && previously(paths@.take(0), k))));
    while i < paths.len()
        invariant
            i <= paths@.len(),
            start == old(set)@,
            set@ == start.union(Set::new(|k: Seq<char>| k != key@ && previously(paths@.take(i as int), k))),
        decreases paths.len() - i,
    {
        let p = &paths[i];
        let ghost before = set@;
        if p.here && !str_eq(p.key.as_str(), key) {
            let _added = set.insert(p.key.clone());
        }
        proof {
            let now = paths@.take(i + 1);
            assert forall|k: Seq<char>| k != key@ implies (previously(now, k) <==> previously(paths@.take(i as int), k)
                || (p.here && p.key@ == k)) by {
                if previously(now, k) {
                    let x = choose|x: int| 0 <= x < now.len() && (#[trigger] now[x]).here && now[x].key@ == k;
                    if x < i {
                        assert(paths@.take(i as int)[x] == now[x]);
                    }
                }
                if previously(paths@.take(i as int), k) {
                    let x = choose|x: int|
                        0 <= x < i && (#[trigger] paths@.take(i as int)[x]).here && paths@.take(i as int)[x].key@ == k;
                    assert(now[x] == paths@.take(i as int)[x]);
                }
                if p.here && p.key@ == k {
                    assert(now[i as int] == *p);
                }
            }
            assert(set@ =~= start.union(Set::new(|k: Seq<char>| k != key@ && previously(now, k))));
        }
        i = i + 1;
    }
    assert(paths@.take(paths@.len() as int) =~= paths@);
}

fn is_tracked_elsewhere(paths: &Vec<PathKey>, k: &str) -> (r: bool)
    ensures
        r == tracked_elsewhere(paths@, k@),
{
    let mut i: usize = 0;
    while i < paths.len()
        invariant
            i <= paths@.len(),
            forall|x: int| 0 <= x < i ==> !(!(#[trigger] paths@[x]).here && paths@[x].key@ == k@),
        decreases paths.len() - i,
    {
        if !paths[i].here && str_eq(paths[i].key.as_str(), k) {
            return true;
        }
        i = i + 1;
    }
    false
}

/// Whether a catalogued repository is declared to be the inspected one, or at
/// all the same.
pub open spec fn chosen_from(known: Seq<KnownRepository>, k: Seq<char>, declared_only: bool) -> bool {
    if declared_only {
        declares(known, k)
    } else {
        replaces(known, k)
    }
}

fn add_known(set: &mut OrderedSet, key: &str, known: &Vec<KnownRepository>, declared_only: bool)
    ensures
        final(set)@ == old(set)@.union(
            Set::new(|k: Seq<char>| k != key@ && chosen_from(known@, k, declared_only)),
        ),
{
    let ghost start = set@;
    let mut i: usize = 0;
    assert(set@ =~= start.union(Set::new(|k: Seq<char>| k != key@ && chosen_from(known@.take(0), k, declared_only))));
    while i < known.len()
        invariant
            i <= known@.len(),
            start == old(set)@,
            set@ == start.union(Set::new(|k: Seq<char>| k != key@ && chosen_from(known@.take(i as int), k, declared_only))),
        decreases known.len() - i,
    {
        let p = &known[i];
        let taken = p.declared || (!declared_only && p.same_checkout);
        if taken && !str_eq(p.key.as_str(), key) {
            let _added = set.insert(p.key.clone());
        }
        proof {
            let now = known@.take(i + 1);
            let old_part = known@.take(i as int);
            assert forall|k: Seq<char>| k != key@ implies (#[trigger] chosen_from(now, k, declared_only) <==> chosen_from(old_part, k, declared_only) || (taken && p.key@
                == k)) by {
                if declares(now, k) {
                    let x = choose|x: int| 0 <= x < now.len() && (#[trigger] now[x]).key@ == k && now[x].declared;
                    if x < i {
                        assert(old_part[x] == now[x]);
                    }
                }
                if replaces(now, k) {
                    let x = choose|x: int|
                        0 <= x < now.len() && (#[trigger] now[x]).key@ == k && (now[x].same_checkout || now[x].declared);
                    if x < i {
                        assert(old_part[x] == now[x]);
                    }
                }
                if declares(old_part, k) {
                    let x = choose|x: int| 0 <= x < i && (#[trigger] old_part[x]).key@ == k && old_part[x].declared;
                    assert(now[x] == old_part[x]);
                }
                if replaces(old_part, k) {
                    let x = choose|x: int|
                        0 <= x < i && (#[trigger] old_part[x]).key@ == k && (old_part[x].same_checkout
                            || old_part[x].declared);
                    assert(now[x] == old_part[x]);
                }
                if taken && p.key@ == k {
                    assert(now[i as int] == *p);
                }
            }
            assert(set@ =~= start.union(Set::new(|k: Seq<char>| k != key@ && chosen_from(now, k, declared_only))));
        }
        i = i + 1;
    }
    assert(known@.take(known@.len() as int) =~= known@);
}

/// The repositories that an inspected one takes the place of.
pub fn superseded_keys(key: &str, known: &Vec<KnownRepository>, paths: &Vec<PathKey>, observed: &Vec<PathKey>) -> (r: OrderedSet)
    ensures
        r@ == superseded(key@, known@, paths@, observed@),
{
    let mut set = OrderedSet::new();
    add_here(&mut set, key, paths);
    add_known(&mut set, key, known, false);
    add_here(&mut set, key, observed);
    assert(set@ =~= superseded(key@, known@, paths@, observed@));
    set
}

/// The repositories that projects are moved away from.
pub fn migratable_keys(key: &str, known: &Vec<KnownRepository>, paths: &Vec<PathKey>, observed: &Vec<PathKey>) -> (r: OrderedSet)
    ensures
        r@ == migratable(key@, known@, paths@, observed@),
{
    let all = superseded_keys(key, known, paths, observed);
    let mut set = OrderedSet::new();
    let n: usize = all.len();
    let mut i: usize = 0;
    let ghost items = all.items();
    assert(set@ =~= Set::new(|k: Seq<char>| holds(items.take(0), k) && !tracked_elsewhere(paths@, k)));
    while i < n
        invariant
            i <= n,
            n == items.len(),
            items == all.items(),
            set@ == Set::new(|k: Seq<char>| holds(items.take(i as int), k) && !tracked_elsewhere(paths@, k)),
        decreases n - i,
    {
        let k = all.item(i);
        if !is_tracked_elsewhere(paths, k.as_str()) {
            let _added = set.insert(k.clone());
        }
        proof {
            let now = items.take(i + 1);
            assert forall|x: Seq<char>| holds(now, x) <==> holds(items.take(i as int), x) || x == k@ by {
                if holds(now, x) {
                    let y = choose|y: int| 0 <= y < now.len() && now[y] == x;
                    if y < i {
                        assert(items.take(i as int)[y] == x);
                    }
                }
                if holds(items.take(i as int), x) {
                    let y = choose|y: int| 0 <= y < i && items.take(i as int)[y] == x;
                    assert(now[y] == x);
                }
                assert(now[i as int] == k@);
            }
            assert(set@ =~= Set::new(|x: Seq<char>| holds(now, x) && !tracked_elsewhere(paths@, x)));
        }
        i = i + 1;
    }
    let _n: usize = all.len();
    proof {
        assert(items.take(n as int) =~= items);
        assert forall|k: Seq<char>| holds(items, k) <==> all@.contains(k) by {
            if holds(items, k) {
                let y = choose|y: int| 0 <= y < items.len() && items[y] == k;
                assert(all@.contains(items[y]));
            }
        }
    }
    add_known(&mut set, key, known, true);
    assert(set@ =~= migratable(key@, known@, paths@, observed@));
    set
}

/// A repository never takes its own place.
pub proof fn law_no_repository_supersedes_itself(
    key: Seq<char>,
    known: Seq<KnownRepository>,
    paths: Seq<PathKey>,
    observed: Seq<PathKey>,
)
    ensures
        !superseded(key, known, paths, observed).contains(key),
        !migratable(key, known, paths, observed).contains(key),
{
}

/// What another path is still known as is only moved where it is declared
/// to be the same repository.
pub proof fn law_tracked_repositories_stay(
    key: Seq<char>,
    known: Seq<KnownRepository>,
    paths: Seq<PathKey>,
    observed: Seq<PathKey>,
    k: Seq<char>,
)
    requires
        migratable(key, known, paths, observed).contains(k),
        tracked_elsewhere(paths, k),
    ensures
        declares(known, k),
{
}

/// Where the repository of a key stands, or the number of repositories.
pub open spec fn known_at(known: Seq<KnownRepository>, key: Seq<char>) -> int
    decreases known.len(),
{
    if known.len() == 0 || known[0].key@ == key {
        0
    } else {
        1 + known_at(known.drop_first(), key)
    }
}

proof fn lemma_known_at(known: Seq<KnownRepository>, key: Seq<char>)
    ensures
        0 <= known_at(known, key) <= known.len(),
    decreases known.len(),
{
    if known.len() > 0 && known[0].key@ != key {
        lemma_known_at(known.drop_first(), key);
    }
}

fn find_known<'a>(known: &'a Vec<KnownRepository>, key: &str) -> (r: Option<&'a KnownRepository>)
    ensures
        match r {
            Some(k) => known_at(known@, key@) < known@.len() && *k == known@[known_at(known@, key@)],
            None => known_at(known@, key@) == known@.len(),
        },
{
    proof {
        lemma_known_at(known@, key@);
    }
    let mut i: usize = 0;
    assert(known@.skip(0) =~= known@);
    while i < known.len()
        invariant
            i <= known@.len(),
            known_at(known@, key@) == i + known_at(known@.skip(i as int), key@),
        decreases known.len() - i,
    {
        assert(known@.skip(i as int)[0] == known@[i as int]);
        assert(known@.skip(i as int).drop_first() =~= known@.skip(i + 1));
        if str_eq(known[i].key.as_str(), key) {
            return Some(&known[i]);
        }
        i = i + 1;
    }
    None
}

/// The names and display names that generated projects of a repository, and of
/// those it takes the place of, have.
#[derive(Debug)]
pub struct GeneratedNames {
    pub canonical: OrderedSet,
    pub names: OrderedSet,
    pub display_names: OrderedSet,
}

/// The generated names of repositories, and the first that has none.
pub open spec fn names_of_keys(known: Seq<KnownRepository>, keys: Seq<Seq<char>>) -> Result<(Set<Seq<char>>, Set<Seq<char>>), Seq<char>>
    decreases keys.len(),
{
    if keys.len() == 0 {
        Ok((Set::empty(), Set::empty()))
    } else {
        match names_of_keys(known, keys.drop_last()) {
            Err(e) => Err(e),
            Ok((names, displays)) => {
                let at = known_at(known, keys.last());
                if at >= known.len() {
                    Ok((names, displays))
                } else {
                    let k = known[at];
                    match candidate_names(k.leaf_slug@, k.catalog_slug@, k.key@) {
                        Err(e) => Err(e),
                        Ok(more) => match project_name(k.leaf_slug@) {
                            Err(e) => Err(e),
                            Ok(display) => Ok((names.union(more.to_set()), displays.insert(display))),
                        },
                    }
                }
            },
        }
    }
}

/// `r` holds the generated names.
pub open spec fn generated_names_of(
    r: Result<GeneratedNames, String>,
    leaf: Seq<char>,
    catalog: Seq<char>,
    key: Seq<char>,
    known: Seq<KnownRepository>,
    keys: Seq<Seq<char>>,
) -> bool {
    match project_name(leaf) {
        Err(e) => r matches Err(x) && x@ == e,
        Ok(display) => match candidate_names(leaf, catalog, key) {
            Err(e) => r matches Err(x) && x@ == e,
            Ok(own) => match names_of_keys(known, keys) {
                Err(e) => r matches Err(x) && x@ == e,
                Ok((names, displays)) => r matches Ok(g) && g.canonical@ == own.to_set() && g.names@ == own.to_set().union(
                    names,
                ) && g.display_names@ == displays.insert(display),
            },
        },
    }
}

fn add_all(set: &mut OrderedSet, v: &Vec<String>)
    ensures
        final(set)@ == old(set)@.union(strs(v@).to_set()),
{
    let ghost start = set@;
    let ghost all = strs(v@);
    let mut i: usize = 0;
    assert(set@ =~= start.union(all.take(0).to_set()));
    while i < v.len()
        invariant
            i <= v@.len(),
            all == strs(v@),
            start == old(set)@,
            set@ == start.union(all.take(i as int).to_set()),
        decreases v.len() - i,
    {
        let _added = set.insert(v[i].clone());
        proof {
            let now = all.take(i + 1);
            assert forall|x: Seq<char>| now.to_set().contains(x) <==> all.take(i as int).to_set().contains(x) || x
                == v@[i as int]@ by {
                if now.contains(x) {
                    let y = choose|y: int| 0 <= y < now.len() && now[y] == x;
                    if y < i {
                        assert(all.take(i as int)[y] == x);
                    }
                }
                if all.take(i as int).contains(x) {
                    let y = choose|y: int| 0 <= y < i && all.take(i as int)[y] == x;
                    assert(now[y] == x);
                }
                assert(now[i as int] == v@[i as int]@);
            }
            assert(set@ =~= start.union(now.to_set()));
        }
        i = i + 1;
    }
    assert(all.take(all.len() as int) =~= all);
}

proof fn lemma_names_fail_early(known: Seq<KnownRepository>, keys: Seq<Seq<char>>, n: int)
    requires
        0 <= n <= keys.len(),
        names_of_keys(known, keys.take(n)) is Err,
    ensures
        names_of_keys(known, keys) == names_of_keys(known, keys.take(n)),
    decreases keys.len() - n,
{
    if n < keys.len() {
        assert(keys.take(n + 1).drop_last() =~= keys.take(n));
        lemma_names_fail_early(known, keys, n + 1);
    } else {
        assert(keys.take(n) =~= keys);
    }
}

/// The names of the generated projects of a repository and of those it takes
/// the place of.
pub fn generated_project_names(
    leaf_slug: &str,
    catalog_slug: &str,
    key: &str,
    known: &Vec<KnownRepository>,
    migrating: &OrderedSet,
) -> (r: Result<GeneratedNames, String>)
    ensures
        generated_names_of(r, leaf_slug@, catalog_slug@, key@, known@, migrating.items()),
{
    let display = normalize_project_name(leaf_slug)?;
    let own = whole_repository_project_names(leaf_slug, catalog_slug, key)?;
    let ghost keys = migrating.items();
    let mut more = OrderedSet::new();
    let mut displays = OrderedSet::new();
    let n: usize = migrating.len();
    let mut i: usize = 0;
    assert(keys.take(0) =~= Seq::<Seq<char>>::empty());
    while i < n
        invariant
            i <= n,
            n == keys.len(),
            keys == migrating.items(),
            project_name(leaf_slug@) == Ok::<Seq<char>, Seq<char>>(display@),
            candidate_names(leaf_slug@, catalog_slug@, key@) == Ok::<Seq<Seq<char>>, Seq<char>>(strs(own@)),
            names_of_keys(known@, keys.take(i as int)) == Ok::<(Set<Seq<char>>, Set<Seq<char>>), Seq<char>>(
                (more@, displays@),
            ),
        decreases n - i,
    {
        let k = migrating.item(i);
        assert(keys.take(i + 1).drop_last() =~= keys.take(i as int));
        assert(keys.take(i + 1).last() == k@);
        match find_known(known, k.as_str()) {
            None => {},
            Some(found) => {
                match whole_repository_project_names(
                    found.leaf_slug.as_str(),
                    found.catalog_slug.as_str(),
                    found.key.as_str(),
                ) {
                    Err(e) => {
                        proof {
                            lemma_names_fail_early(known@, keys, i + 1);
                        }
                        return Err(e);
                    },
                    Ok(names) => {
                        add_all(&mut more, &names);
                    },
                }
                match normalize_project_name(found.leaf_slug.as_str()) {
                    Err(e) => {
                        proof {
                            lemma_names_fail_early(known@, keys, i + 1);
                        }
                        return Err(e);
                    },
                    Ok(name) => {
                        let _added = displays.insert(name);
                    },
                }
            },
        }
        i = i + 1;
    }
    assert(keys.take(n as int) =~= keys);
    let mut canonical = OrderedSet::new();
    add_all(&mut canonical, &own);
    assert(canonical@ =~= strs(own@).to_set());
    let mut names = more;
    add_all(&mut names, &own);
    let _added = displays.insert(display);
    assert(names@ =~= strs(own@).to_set().union(more@));
    Ok(GeneratedNames { canonical, names, display_names: displays })
}

/// Whether a project is a mirror that a repository left behind under a key it
/// no longer has. Mirrors made before generated names were deterministic end
/// in `-lab`.
pub open spec fn is_obsolete(
    project: ProjectRecord,
    g: GeneratedNames,
    migrating: Set<Seq<char>>,
    known: Seq<KnownRepository>,
) -> bool {
    let repositories = project.definition.repositories@;
    &&& project.generated
    &&& !g.canonical@.contains(project.name@)
    &&& (g.names@.contains(project.name@) || ends(project.name@, "-lab"@))
    &&& repositories.len() == 1
    &&& migrating.contains(repositories[0].repo@)
    &&& known_at(known, repositories[0].repo@) < known.len()
    &&& known[known_at(known, repositories[0].repo@)].has_remotes
}

pub fn obsolete_mirror(project: &ProjectRecord, g: &GeneratedNames, migrating: &OrderedSet, known: &Vec<KnownRepository>) -> (r: bool)
    ensures
        r == is_obsolete(*project, *g, migrating@, known@),
{
    let name = project.name.as_str();
    if !project.generated || g.canonical.contains(name) || !(g.names.contains(name) || str_ends(name, "-lab"))
        || project.definition.repositories.len() != 1 {
        return false;
    }
    let repo = project.definition.repositories[0].repo.as_str();
    if !migrating.contains(repo) {
        return false;
    }
    match find_known(known, repo) {
        Some(found) => found.has_remotes,
        None => false,
    }
}

/// `after` is a project's repositories once they are moved to the new key.
pub open spec fn moved_repositories(after: Seq<DefinedRepository>, before: Seq<DefinedRepository>, key: Seq<char>, migrating: Set<Seq<char>>) -> bool {
    &&& after.len() == before.len()
    &&& forall|i: int|
        0 <= i < after.len() ==> {
            &&& (#[trigger] after[i]).repo@ == if migrating.contains(before[i].repo@) {
                key
            } else {
                before[i].repo@
            }
            &&& after[i].alias == before[i].alias
            &&& after[i].roles@ == before[i].roles@
            &&& after[i].subpath == before[i].subpath
            &&& after[i].default_branch == before[i].default_branch
        }
}

/// Whether a project refers to a repository it is moved away from.
pub open spec fn must_move(project: ProjectRecord, migrating: Set<Seq<char>>) -> bool {
    !project.declared && exists|i: int|
        0 <= i < project.definition.repositories@.len() && migrating.contains(
            (#[trigger] project.definition.repositories@[i]).repo@,
        )
}

/// The repositories of a project once it is moved, where it has to be. A
/// project that is declared in a repository is left to its declaration.
pub fn migrate_project(project: &ProjectRecord, key: &str, migrating: &OrderedSet) -> (r: Option<Vec<DefinedRepository>>)
    ensures
        match r {
            Some(after) => must_move(*project, migrating@) && moved_repositories(
                after@,
                project.definition.repositories@,
                key@,
                migrating@,
            ),
            None => !must_move(*project, migrating@),
        },
{
    if project.declared {
        return None;
    }
    let before = &project.definition.repositories;
    let mut after: Vec<DefinedRepository> = Vec::new();
    let mut changed = false;
    let mut i: usize = 0;
    while i < before.len()
        invariant
            i <= before@.len(),
            *before == project.definition.repositories,
            changed == exists|k: int| 0 <= k < i && migrating@.contains((#[trigger] before@[k]).repo@),
            after@.len() == i,
            forall|k: int|
                0 <= k < i ==> {
                    &&& (#[trigger] after@[k]).repo@ == if migrating@.contains(before@[k].repo@) {
                        key@
                    } else {
                        before@[k].repo@
                    }
                    &&& after@[k].alias == before@[k].alias
                    &&& after@[k].roles@ == before@[k].roles@
                    &&& after@[k].subpath == before@[k].subpath
                    &&& after@[k].default_branch == before@[k].default_branch
                },
        decreases before.len() - i,
    {
        let r = &before[i];
        let moves = migrating.contains(r.repo.as_str());
        if moves {
            assert(migrating@.contains(before@[i as int].repo@));
            changed = true;
        }
        after.push(
            DefinedRepository {
                repo: if moves {
                    key.to_owned()
                } else {
                    r.repo.clone()
                },
                alias: opt_clone(&r.alias),
                roles: strs_clone(&r.roles),
                subpath: opt_clone(&r.subpath),
                default_branch: opt_clone(&r.default_branch),
            },
        );
        i = i + 1;
    }
    if changed {
        Some(after)
    } else {
        None
    }
}

/// A project that is listed, and whether it was just moved.
#[derive(Debug)]
pub struct ListedProject {
    pub record: ProjectRecord,
    pub migrated: bool,
}

/// Whether `a` comes before `b` as the project of a repository: one that was
/// just moved first, then one that was not generated, then by name.
pub open spec fn primary_before(a: ListedProject, b: ListedProject, g: Set<Seq<char>>) -> bool {
    let a_generated = g.contains(a.record.name@);
    let b_generated = g.contains(b.record.name@);
    if a.migrated != b.migrated {
        a.migrated
    } else if a_generated != b_generated {
        !a_generated
    } else {
        lex_lt(a.record.name@, b.record.name@)
    }
}

/// The project of a repository among those listed.
pub open spec fn primary(projects: Seq<ListedProject>, key: Seq<char>, g: Set<Seq<char>>) -> Option<int>
    decreases projects.len(),
{
    if projects.len() == 0 {
        None
    } else {
        let before = primary(projects.drop_last(), key, g);
        if !is_whole(projects.last().record.definition.repositories@, key) {
            before
        } else {
            match before {
                None => Some(projects.len() - 1),
                Some(i) => if primary_before(projects.last(), projects[i], g) {
                    Some(projects.len() - 1)
                } else {
                    Some(i)
                },
            }
        }
    }
}

fn comes_before(a: &ListedProject, b: &ListedProject, names: &OrderedSet) -> (r: bool)
    ensures
        r == primary_before(*a, *b, names@),
{
    let a_generated = names.contains(a.record.name.as_str());
    let b_generated = names.contains(b.record.name.as_str());
    if a.migrated != b.migrated {
        a.migrated
    } else if a_generated != b_generated {
        !a_generated
    } else {
        str_lt(a.record.name.as_str(), b.record.name.as_str())
    }
}

pub fn primary_project(projects: &Vec<ListedProject>, key: &str, names: &OrderedSet) -> (r: Option<usize>)
    ensures
        match r {
            Some(i) => i < projects@.len() && primary(projects@, key@, names@) == Some(i as int) && is_whole(
                projects@[i as int].record.definition.repositories@,
                key@,
            ),
            None => primary(projects@, key@, names@) is None,
        },
{
    let mut best: Option<usize> = None;
    let mut i: usize = 0;
    while i < projects.len()
        invariant
            i <= projects@.len(),
            match best {
                Some(b) => b < i && primary(projects@.take(i as int), key@, names@) == Some(b as int) && is_whole(
                    projects@[b as int].record.definition.repositories@,
                    key@,
                ),
                None => primary(projects@.take(i as int), key@, names@) is None,
            },
        decreases projects.len() - i,
    {
        assert(projects@.take(i + 1).drop_last() =~= projects@.take(i as int));
        assert(projects@.take(i + 1).last() == projects@[i as int]);
        if is_whole_repository_project(&projects[i].record.definition.repositories, key) {
            best = match best {
                None => Some(i),
                Some(b) => {
                    assert(projects@.take(i + 1)[b as int] == projects@[b as int]);
                    if comes_before(&projects[i], &projects[b], names) {
                        Some(i)
                    } else {
                        Some(b)
                    }
                },
            };
        }
        i = i + 1;
    }
    assert(projects@.take(projects@.len() as int) =~= projects@);
    best
}

/// Whether two repositories of definitions are the same.
pub open spec fn same_repository(a: DefinedRepository, b: DefinedRepository) -> bool {
    &&& a.repo@ == b.repo@
    &&& opt(a.alias) == opt(b.alias)
    &&& strs(a.roles@) == strs(b.roles@)
    &&& opt(a.subpath) == opt(b.subpath)
    &&& opt(a.default_branch) == opt(b.default_branch)
}

pub open spec fn same_repositories(a: Seq<DefinedRepository>, b: Seq<DefinedRepository>) -> bool {
    a.len() == b.len() && forall|i: int| 0 <= i < a.len() ==> same_repository(#[trigger] a[i], b[i])
}

fn equal_texts(a: &Vec<String>, b: &Vec<String>) -> (r: bool)
    ensures
        r == (strs(a@) == strs(b@)),
{
    if a.len() != b.len() {
        assert(strs(a@).len() != strs(b@).len());
        return false;
    }
    let mut i: usize = 0;
    while i < a.len()
        invariant
            i <= a@.len() == b@.len(),
            forall|k: int| 0 <= k < i ==> (#[trigger] a@[k])@ == b@[k]@,
        decreases a.len() - i,
    {
        if !str_eq(a[i].as_str(), b[i].as_str()) {
            assert(strs(a@)[i as int] != strs(b@)[i as int]);
            return false;
        }
        i = i + 1;
    }
    assert(strs(a@) =~= strs(b@));
    true
}

fn equal_repositories(a: &Vec<DefinedRepository>, b: &Vec<DefinedRepository>) -> (r: bool)
    ensures
        r == same_repositories(a@, b@),
{
    if a.len() != b.len() {
        return false;
    }
    let mut i: usize = 0;
    while i < a.len()
        invariant
            i <= a@.len() == b@.len(),
            forall|k: int| 0 <= k < i ==> same_repository(#[trigger] a@[k], b@[k]),
        decreases a.len() - i,
    {
        if !(str_eq(a[i].repo.as_str(), b[i].repo.as_str()) && opt_eq(&a[i].alias, &b[i].alias) && equal_texts(
            &a[i].roles,
            &b[i].roles,
        ) && opt_eq(&a[i].subpath, &b[i].subpath) && opt_eq(&a[i].default_branch, &b[i].default_branch)) {
            assert(!same_repository(a@[i as int], b@[i as int]));
            return false;
        }
        i = i + 1;
    }
    true
}

/// Whether a project says nothing that the primary one does not: generated
/// under one of the names, and defined as it was generated.
pub open spec fn is_duplicate(project: ProjectRecord, primary: Seq<char>, g: GeneratedNames, spec: ProjectDefinition) -> bool {
    &&& project.name@ != primary
    &&& g.names@.contains(project.name@)
    &&& g.display_names@.contains(project.definition.display_name@)
    &&& project.definition.default_workflow_ref@ == spec.default_workflow_ref@
    &&& opt(project.definition.issue_source) == opt(spec.issue_source)
    &&& same_repositories(project.definition.repositories@, spec.repositories@)
}

pub fn duplicate_project(project: &ProjectRecord, primary: &str, g: &GeneratedNames, spec: &ProjectDefinition) -> (r: bool)
    ensures
        r == is_duplicate(*project, primary@, *g, *spec),
{
    !str_eq(project.name.as_str(), primary) && g.names.contains(project.name.as_str()) && g.display_names.contains(
        project.definition.display_name.as_str(),
    ) && str_eq(project.definition.default_workflow_ref.as_str(), spec.default_workflow_ref.as_str()) && opt_eq(
        &project.definition.issue_source,
        &spec.issue_source,
    ) && equal_repositories(&project.definition.repositories, &spec.repositories)
}

/// A project that its user changed is never taken for a duplicate.
pub proof fn law_changed_projects_survive(project: ProjectRecord, primary: Seq<char>, g: GeneratedNames, spec: ProjectDefinition)
    requires
        project.definition.default_workflow_ref@ != spec.default_workflow_ref@ || opt(project.definition.issue_source) != opt(
            spec.issue_source,
        ) || !g.display_names@.contains(project.definition.display_name@) || project.definition.repositories@.len()
            != spec.repositories@.len(),
    ensures
        !is_duplicate(project, primary, g, spec),
{
}

/// What becomes of a repository that was taken the place of.
#[derive(Debug, Clone, Copy, PartialEq, Eq, Structural)]
pub enum OldRepository {
    /// Some project still refers to it.
    Leave,
    Delete,
    /// A checkout remains: it is marked as superseded.
    Supersede,
}

/// Whether a project refers to the repository.
pub open spec fn referenced(projects: Seq<ProjectRecord>, key: Seq<char>) -> bool {
    exists|i: int, j: int|
        0 <= i < projects.len() && 0 <= j < (#[trigger] projects[i]).definition.repositories@.len()
            && (#[trigger] projects[i].definition.repositories@[j]).repo@ == key
}

/// What becomes of a repository that was taken the place of.
pub open spec fn old_repository(projects: Seq<ProjectRecord>, checkouts: Seq<Seq<char>>, key: Seq<char>) -> OldRepository {
    if referenced(projects, key) {
        OldRepository::Leave
    } else if holds(checkouts, key) {
        OldRepository::Supersede
    } else {
        OldRepository::Delete
    }
}

/// `checkouts` lists the repositories that durable checkouts are of.
pub fn dispose_of_repository(projects: &Vec<ProjectRecord>, checkouts: &Vec<String>, key: &str) -> (r: OldRepository)
    ensures
        r == old_repository(projects@, strs(checkouts@), key@),
{
    let mut i: usize = 0;
    while i < projects.len()
        invariant
            i <= projects@.len(),
            forall|x: int, y: int|
                0 <= x < i && 0 <= y < (#[trigger] projects@[x]).definition.repositories@.len() ==> (
                #[trigger] projects@[x].definition.repositories@[y]).repo@ != key@,
        decreases projects.len() - i,
    {
        let repositories = &projects[i].definition.repositories;
        let mut k: usize = 0;
        while k < repositories.len()
            invariant
                i < projects@.len(),
                *repositories == projects@[i as int].definition.repositories,
                k <= repositories@.len(),
                forall|y: int| 0 <= y < k ==> (#[trigger] repositories@[y]).repo@ != key@,
            decreases repositories.len() - k,
        {
            if str_eq(repositories[k].repo.as_str(), key) {
                assert(projects@[i as int].definition.repositories@[k as int].repo@ == key@);
                return OldRepository::Leave;
            }
            k = k + 1;
        }
        i = i + 1;
    }
    if strs_hold(checkouts, key) {
        OldRepository::Supersede
    } else {
        OldRepository::Delete
    }
}

/// How a repository's identity changed.
#[derive(Debug, PartialEq, Eq)]
pub struct IdentityChange {
    pub previous_display: String,
    pub current_display: String,
}

/// The first of some repositories that is known.
pub open spec fn first_known(known: Seq<KnownRepository>, keys: Seq<Seq<char>>) -> Option<int>
    decreases keys.len(),
{
    if keys.len() == 0 {
        None
    } else if known_at(known, keys[0]) < known.len() {
        Some(known_at(known, keys[0]))
    } else {
        first_known(known, keys.drop_first())
    }
}

/// The repository that the path was known as: what stood there before, else the
/// first it takes the place of.
pub open spec fn previous_repository(known: Seq<KnownRepository>, paths: Option<Seq<char>>, keys: Seq<Seq<char>>) -> Option<int> {
    match paths {
        Some(key) => if known_at(known, key) < known.len() {
            Some(known_at(known, key))
        } else {
            first_known(known, keys)
        },
        None => first_known(known, keys),
    }
}

/// The change of identity to report, if there was one.
pub fn identity_change(
    known: &Vec<KnownRepository>,
    paths: &Option<String>,
    superseded: &OrderedSet,
    current_display: &str,
) -> (r: Option<IdentityChange>)
    ensures
        match previous_repository(known@, opt(*paths), superseded.items()) {
            Some(i) => r matches Some(change) && change.previous_display@ == known@[i].display@ && change.current_display@
                == current_display@,
            None => r is None,
        },
{
    match paths {
        Some(key) => match find_known(known, key.as_str()) {
            Some(found) => {
                return Some(
                    IdentityChange {
                        previous_display: found.display.clone(),
                        current_display: current_display.to_owned(),
                    },
                );
            },
            None => {},
        },
        None => {},
    }
    let ghost keys = superseded.items();
    let n: usize = superseded.len();
    let mut i: usize = 0;
    assert(keys.skip(0) =~= keys);
    while i < n
        invariant
            i <= n,
            n == keys.len(),
            keys == superseded.items(),
            previous_repository(known@, opt(*paths), keys) == first_known(known@, keys),
            first_known(known@, keys) == first_known(known@, keys.skip(i as int)),
        decreases n - i,
    {
        let key = superseded.item(i);
        assert(keys.skip(i as int)[0] == key@);
        assert(keys.skip(i as int).drop_first() =~= keys.skip(i + 1));
        match find_known(known, key.as_str()) {
            Some(found) => {
                return Some(
                    IdentityChange {
                        previous_display: found.display.clone(),
                        current_display: current_display.to_owned(),
                    },
                );
            },
            None => {},
        }
        i = i + 1;
    }
    None
}

/// How creating a project under a name went.
#[derive(Debug, PartialEq, Eq)]
pub enum CreateReply {
    Created,
    /// A project of the name exists, which may be this repository's.
    Taken { whole: bool },
    Failed { message: String },
}

/// What to do about the name of a generated project.
#[derive(Debug, PartialEq, Eq)]
pub enum NameStep {
    Try { candidate: usize },
    Created,
    Reuse { candidate: usize },
    Fail { message: String },
}

/// `step` is what to do once the candidates so far were answered.
pub open spec fn name_step_of(step: NameStep, key: Seq<char>, candidates: int, replies: Seq<CreateReply>) -> bool {
    let unallocated = "could not allocate a deterministic Project name for repository "@ + key;
    if replies.len() > 0 && !(replies.last() matches CreateReply::Taken { whole } && !whole) {
        match replies.last() {
            CreateReply::Created => step is Created,
            CreateReply::Taken { .. } => step == NameStep::Reuse { candidate: (replies.len() - 1) as usize },
            CreateReply::Failed { message } => step matches NameStep::Fail { message: m } && m == message,
        }
    } else if replies.len() < candidates {
        step == NameStep::Try { candidate: replies.len() as usize }
    } else {
        step matches NameStep::Fail { message } && message@ == unallocated
    }
}

/// Finds a name for a generated project: the candidates are tried in order
/// until one is free or already this repository's.
pub fn next_project_name(key: &str, candidates: usize, replies: &Vec<CreateReply>) -> (r: NameStep)
    ensures
        name_step_of(r, key@, candidates as int, replies@),
{
    if replies.len() > 0 {
        match &replies[replies.len() - 1] {
            CreateReply::Created => {
                return NameStep::Created;
            },
            CreateReply::Taken { whole } => {
                if *whole {
                    return NameStep::Reuse { candidate: replies.len() - 1 };
                }
            },
            CreateReply::Failed { message } => {
                return NameStep::Fail { message: message.clone() };
            },
        }
    }
    if replies.len() < candidates {
        NameStep::Try { candidate: replies.len() }
    } else {
        NameStep::Fail { message: concat2("could not allocate a deterministic Project name for repository ", key) }
    }
}

} // verus!
