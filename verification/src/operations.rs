//! The operational entries that a project's repositories declare: which
//! records they ask for, and what it takes to bring the records there.
use vstd::prelude::*;

use crate::digest::{convoy_ensure_name, hex, sha256, zero_separated};
use crate::ordered::{text_map, OrderedMap};
use crate::text::{
    concat2, concat3, concat4, concat5, concat6, holds, join, join_strs, opt, opt_clone, str_eq, strs, strs_clone, strs_hold,
};

verus! {

/// A standing convoy that an entry asks for.
#[derive(Debug, PartialEq, Eq)]
pub struct EnsureEntry {
    pub driver: Option<String>,
    pub workflow: String,
    pub placement: Option<String>,
    /// The stance that every vessel takes; the workflow's where none is given.
    pub stance: Option<String>,
    pub presents_as: Option<String>,
}

/// What an entry defines.
#[derive(Debug, PartialEq, Eq)]
pub enum EntryDefinition {
    /// A workflow template, and what is wrong with it once its vessels work
    /// on the entry's targets.
    WorkflowTemplate { template: String, errors: Vec<String> },
    VerificationCommand { command: String },
    Ensure { ensure: EnsureEntry },
}

/// An operational entry.
#[derive(Debug, PartialEq, Eq)]
pub struct OperationalEntry {
    pub name: String,
    /// The aliases of the repositories it is for; all with code where none
    /// are named.
    pub repos: Option<Vec<String>>,
    pub definition: EntryDefinition,
}

/// A file, and the entry it holds, where it holds one.
#[derive(Debug, PartialEq, Eq)]
pub struct OperationalFile {
    pub path: String,
    pub entry: Result<Option<OperationalEntry>, String>,
}

/// The files of a repository at a commit.
#[derive(Debug, PartialEq, Eq)]
pub struct OperationalSource {
    pub repository: String,
    pub commit: String,
    pub files: Vec<OperationalFile>,
}

/// Where an entry comes from.
#[derive(Debug, PartialEq, Eq)]
pub struct EntrySource {
    pub repository: String,
    pub commit: String,
    pub path: String,
}

/// A workflow template to be materialised.
#[derive(Debug, PartialEq, Eq)]
pub struct WorkflowEntry {
    pub name: String,
    pub source: EntrySource,
    pub template: String,
    /// The repositories that each of its vessels works on.
    pub targets: Vec<String>,
}

/// A verification command of a repository.
#[derive(Debug, PartialEq, Eq)]
pub struct CommandEntry {
    pub repository: String,
    pub name: String,
    pub command: String,
    pub source: EntrySource,
}

/// A standing convoy to be materialised.
#[derive(Debug, PartialEq, Eq)]
pub struct EnsureDefinition {
    pub name: String,
    pub role: String,
    pub source: EntrySource,
    pub ensure: EnsureEntry,
    pub repositories: Vec<String>,
}

/// What the entries read so far ask for: workflows and standing convoys by
/// the names of their records, and commands in the order they came.
#[derive(Debug, PartialEq, Eq)]
pub struct Collected {
    pub workflows: OrderedMap<WorkflowEntry>,
    pub commands: Vec<CommandEntry>,
    pub ensures: OrderedMap<EnsureDefinition>,
}

/// An entry's source, by value.
pub struct SourceView {
    pub repository: Seq<char>,
    pub commit: Seq<char>,
    pub path: Seq<char>,
}

pub struct WorkflowView {
    pub name: Seq<char>,
    pub source: SourceView,
    pub template: Seq<char>,
    pub targets: Seq<Seq<char>>,
}

pub struct CommandView {
    pub repository: Seq<char>,
    pub name: Seq<char>,
    pub command: Seq<char>,
    pub source: SourceView,
}

pub struct EnsureView {
    pub name: Seq<char>,
    pub role: Seq<char>,
    pub source: SourceView,
    pub driver: Option<Seq<char>>,
    pub workflow: Seq<char>,
    pub placement: Option<Seq<char>>,
    pub stance: Option<Seq<char>>,
    pub presents_as: Option<Seq<char>>,
    pub repositories: Seq<Seq<char>>,
}

/// What the entries ask for, by value.
pub struct CollectedView {
    pub workflows: Map<Seq<char>, WorkflowView>,
    pub commands: Seq<CommandView>,
    pub ensures: Map<Seq<char>, EnsureView>,
}

impl View for EntrySource {
    type V = SourceView;

    open spec fn view(&self) -> SourceView {
        SourceView { repository: self.repository@, commit: self.commit@, path: self.path@ }
    }
}

impl View for WorkflowEntry {
    type V = WorkflowView;

    open spec fn view(&self) -> WorkflowView {
        WorkflowView { name: self.name@, source: self.source@, template: self.template@, targets: strs(self.targets@) }
    }
}

impl View for CommandEntry {
    type V = CommandView;

    open spec fn view(&self) -> CommandView {
        CommandView { repository: self.repository@, name: self.name@, command: self.command@, source: self.source@ }
    }
}

impl View for EnsureDefinition {
    type V = EnsureView;

    open spec fn view(&self) -> EnsureView {
        EnsureView {
            name: self.name@,
            role: self.role@,
            source: self.source@,
            driver: opt(self.ensure.driver),
            workflow: self.ensure.workflow@,
            placement: opt(self.ensure.placement),
            stance: opt(self.ensure.stance),
            presents_as: opt(self.ensure.presents_as),
            repositories: strs(self.repositories@),
        }
    }
}

impl View for Collected {
    type V = CollectedView;

    open spec fn view(&self) -> CollectedView {
        CollectedView {
            workflows: self.workflows@.map_values(|w: WorkflowEntry| w@),
            commands: Seq::new(self.commands@.len(), |i: int| self.commands@[i]@),
            ensures: self.ensures@.map_values(|e: EnsureDefinition| e@),
        }
    }
}

/// Whether an entry may only be for repositories with code.
pub open spec fn needs_code(definition: EntryDefinition) -> bool {
    !(definition is WorkflowTemplate)
}

/// The repositories that aliases stand for.
pub open spec fn alias_targets(
    path: Seq<char>,
    name: Seq<char>,
    code_only: bool,
    named: Seq<Seq<char>>,
    aliases: Map<Seq<char>, Seq<char>>,
    all_code: Seq<Seq<char>>,
) -> Result<Seq<Seq<char>>, Seq<char>>
    decreases named.len(),
{
    if named.len() == 0 {
        Ok(Seq::empty())
    } else {
        match alias_targets(path, name, code_only, named.drop_last(), aliases, all_code) {
            Err(e) => Err(e),
            Ok(before) => {
                let alias = named.last();
                if !aliases.dom().contains(alias) {
                    Err(path + " names unknown repository alias `"@ + alias + "`"@)
                } else if code_only && !holds(all_code, aliases[alias]) {
                    Err(
                        path + " operational entry `"@ + name + "` targets repository alias `"@ + alias
                            + "` without the code role"@,
                    )
                } else {
                    Ok(before.push(aliases[alias]))
                }
            },
        }
    }
}

/// The repositories that an entry is for.
pub open spec fn targets_of(
    path: Seq<char>,
    entry: OperationalEntry,
    aliases: Map<Seq<char>, Seq<char>>,
    all_code: Seq<Seq<char>>,
) -> Result<Seq<Seq<char>>, Seq<char>> {
    let targets = match entry.repos {
        Some(named) => alias_targets(path, entry.name@, needs_code(entry.definition), strs(named@), aliases, all_code),
        None => Ok(all_code),
    };
    match targets {
        Err(e) => Err(e),
        Ok(targets) => if targets.len() == 0 {
            Err(path + " has no code-role repositories to target"@)
        } else {
            Ok(targets)
        },
    }
}

proof fn lemma_aliases_fail_early(
    path: Seq<char>,
    name: Seq<char>,
    code_only: bool,
    named: Seq<Seq<char>>,
    aliases: Map<Seq<char>, Seq<char>>,
    all_code: Seq<Seq<char>>,
    n: int,
)
    requires
        0 <= n <= named.len(),
        alias_targets(path, name, code_only, named.take(n), aliases, all_code) is Err,
    ensures
        alias_targets(path, name, code_only, named, aliases, all_code) == alias_targets(
            path,
            name,
            code_only,
            named.take(n),
            aliases,
            all_code,
        ),
    decreases named.len() - n,
{
    if n < named.len() {
        assert(named.take(n + 1).drop_last() =~= named.take(n));
        lemma_aliases_fail_early(path, name, code_only, named, aliases, all_code, n + 1);
    } else {
        assert(named.take(n) =~= named);
    }
}

/// The repositories that an entry is for.
pub fn entry_targets(
    path: &str,
    entry: &OperationalEntry,
    aliases: &OrderedMap<String>,
    all_code: &Vec<String>,
) -> (r: Result<Vec<String>, String>)
    ensures
        match r {
            Ok(v) => targets_of(path@, *entry, text_map(aliases@), strs(all_code@)) == Ok::<
                Seq<Seq<char>>,
                Seq<char>,
            >(strs(v@)),
            Err(e) => targets_of(path@, *entry, text_map(aliases@), strs(all_code@)) == Err::<
                Seq<Seq<char>>,
                Seq<char>,
            >(e@),
        },
{
    let code_only = match &entry.definition {
        EntryDefinition::WorkflowTemplate { .. } => false,
        _ => true,
    };
    let targets = match &entry.repos {
        None => strs_clone(all_code),
        Some(named) => {
            let ghost all = strs(named@);
            let ghost known = text_map(aliases@);
            let ghost code = strs(all_code@);
            let mut targets: Vec<String> = Vec::new();
            let mut i: usize = 0;
            assert(strs(targets@) =~= Seq::<Seq<char>>::empty());
            while i < named.len()
                invariant
                    i <= named@.len(),
                    all == strs(named@),
                    known == text_map(aliases@),
                    code == strs(all_code@),
                    code_only == needs_code(entry.definition),
                    entry.repos == Some(*named),
                    alias_targets(path@, entry.name@, code_only, all.take(i as int), known, code) == Ok::<
                        Seq<Seq<char>>,
                        Seq<char>,
                    >(strs(targets@)),
                decreases named.len() - i,
            {
                assert(all.take(i + 1).drop_last() =~= all.take(i as int));
                assert(all.take(i + 1).last() == named@[i as int]@);
                let alias = named[i].as_str();
                match aliases.get(alias) {
                    None => {
                        proof {
                            lemma_aliases_fail_early(path@, entry.name@, code_only, all, known, code, i + 1);
                        }
                        return Err(concat4(path, " names unknown repository alias `", alias, "`"));
                    },
                    Some(target) => {
                        if code_only && !strs_hold(all_code, target.as_str()) {
                            proof {
                                lemma_aliases_fail_early(path@, entry.name@, code_only, all, known, code, i + 1);
                            }
                            return Err(
                                concat6(
                                    path,
                                    " operational entry `",
                                    entry.name.as_str(),
                                    "` targets repository alias `",
                                    alias,
                                    "` without the code role",
                                ),
                            );
                        }
                        let ghost was = strs(targets@);
                        targets.push(target.clone());
                        assert(strs(targets@) =~= was.push(target@));
                    },
                }
                i = i + 1;
            }
            assert(all.take(all.len() as int) =~= all);
            targets
        },
    };
    assert(strs(targets@).len() == targets@.len());
    if targets.len() == 0 {
        return Err(concat2(path, " has no code-role repositories to target"));
    }
    Ok(targets)
}

/// Whether a command of the name was collected for the repository.
pub open spec fn has_command(c: CollectedView, repository: Seq<char>, name: Seq<char>) -> bool {
    exists|i: int|
        0 <= i < c.commands.len() && (#[trigger] c.commands[i]).repository == repository && c.commands[i].name == name
}

/// The record name of a standing convoy.
pub open spec fn ensure_name(project: Seq<char>, role: Seq<char>) -> Seq<char> {
    "ensure-"@ + hex(sha256(zero_separated(project, role)))
}

/// A command is collected for each of the targets.
pub open spec fn with_command(
    c: CollectedView,
    targets: Seq<Seq<char>>,
    name: Seq<char>,
    command: Seq<char>,
    source: SourceView,
) -> Result<CollectedView, Seq<char>>
    decreases targets.len(),
{
    if targets.len() == 0 {
        Ok(c)
    } else {
        match with_command(c, targets.drop_last(), name, command, source) {
            Err(e) => Err(e),
            Ok(before) => if has_command(before, targets.last(), name) {
                Err("duplicate verification command `"@ + name + "` for repository "@ + targets.last())
            } else {
                Ok(
                    CollectedView {
                        commands: before.commands.push(
                            CommandView { repository: targets.last(), name, command, source },
                        ),
                        ..before
                    },
                )
            },
        }
    }
}

/// What is collected once an entry was read.
pub open spec fn with_entry(
    c: CollectedView,
    project: Seq<char>,
    aliases: Map<Seq<char>, Seq<char>>,
    all_code: Seq<Seq<char>>,
    source: SourceView,
    entry: OperationalEntry,
) -> Result<CollectedView, Seq<char>> {
    match targets_of(source.path, entry, aliases, all_code) {
        Err(e) => Err(e),
        Ok(targets) => match entry.definition {
            EntryDefinition::WorkflowTemplate { template, errors } => if errors@.len() > 0 {
                Err(
                    source.path + " contains invalid workflow template `"@ + entry.name@ + "`: "@ + join(
                        strs(errors@),
                        "; "@,
                    ),
                )
            } else if c.workflows.dom().contains(entry.name@) {
                Err("duplicate materialized WorkflowTemplate `"@ + entry.name@ + "`"@)
            } else {
                Ok(
                    CollectedView {
                        workflows: c.workflows.insert(
                            entry.name@,
                            WorkflowView { name: entry.name@, source, template: template@, targets },
                        ),
                        ..c
                    },
                )
            },
            EntryDefinition::VerificationCommand { command } => with_command(c, targets, entry.name@, command@, source),
            EntryDefinition::Ensure { ensure } => if c.ensures.dom().contains(ensure_name(project, entry.name@)) {
                Err("duplicate standing convoy role `"@ + entry.name@ + "` in project `"@ + project + "`"@)
            } else {
                Ok(
                    CollectedView {
                        ensures: c.ensures.insert(
                            ensure_name(project, entry.name@),
                            EnsureView {
                                name: ensure_name(project, entry.name@),
                                role: entry.name@,
                                source,
                                driver: opt(ensure.driver),
                                workflow: ensure.workflow@,
                                placement: opt(ensure.placement),
                                stance: opt(ensure.stance),
                                presents_as: opt(ensure.presents_as),
                                repositories: targets,
                            },
                        ),
                        ..c
                    },
                )
            },
        },
    }
}

/// What is collected once the files of a source were read.
pub open spec fn with_files(
    c: CollectedView,
    project: Seq<char>,
    aliases: Map<Seq<char>, Seq<char>>,
    all_code: Seq<Seq<char>>,
    repository: Seq<char>,
    commit: Seq<char>,
    files: Seq<OperationalFile>,
) -> Result<CollectedView, Seq<char>>
    decreases files.len(),
{
    if files.len() == 0 {
        Ok(c)
    } else {
        match with_files(c, project, aliases, all_code, repository, commit, files.drop_last()) {
            Err(e) => Err(e),
            Ok(before) => match files.last().entry {
                Err(e) => Err(files.last().path@ + ": "@ + e@),
                Ok(None) => Ok(before),
                Ok(Some(entry)) => with_entry(
                    before,
                    project,
                    aliases,
                    all_code,
                    SourceView { repository, commit, path: files.last().path@ },
                    entry,
                ),
            },
        }
    }
}

proof fn lemma_files_fail_early(
    c: CollectedView,
    project: Seq<char>,
    aliases: Map<Seq<char>, Seq<char>>,
    all_code: Seq<Seq<char>>,
    repository: Seq<char>,
    commit: Seq<char>,
    files: Seq<OperationalFile>,
    n: int,
)
    requires
        0 <= n <= files.len(),
        with_files(c, project, aliases, all_code, repository, commit, files.take(n)) is Err,
    ensures
        with_files(c, project, aliases, all_code, repository, commit, files) == with_files(
            c,
            project,
            aliases,
            all_code,
            repository,
            commit,
            files.take(n),
        ),
    decreases files.len() - n,
{
    if n < files.len() {
        assert(files.take(n + 1).drop_last() =~= files.take(n));
        lemma_files_fail_early(c, project, aliases, all_code, repository, commit, files, n + 1);
    } else {
        assert(files.take(n) =~= files);
    }
}

proof fn lemma_command_fails_early(
    c: CollectedView,
    targets: Seq<Seq<char>>,
    name: Seq<char>,
    command: Seq<char>,
    source: SourceView,
    n: int,
)
    requires
        0 <= n <= targets.len(),
        with_command(c, targets.take(n), name, command, source) is Err,
    ensures
        with_command(c, targets, name, command, source) == with_command(c, targets.take(n), name, command, source),
    decreases targets.len() - n,
{
    if n < targets.len() {
        assert(targets.take(n + 1).drop_last() =~= targets.take(n));
        lemma_command_fails_early(c, targets, name, command, source, n + 1);
    } else {
        assert(targets.take(n) =~= targets);
    }
}

fn source_of(repository: &str, commit: &str, path: &str) -> (r: EntrySource)
    ensures
        r@ == (SourceView { repository: repository@, commit: commit@, path: path@ }),
{
    EntrySource { repository: repository.to_owned(), commit: commit.to_owned(), path: path.to_owned() }
}

fn knows_command(c: &Collected, repository: &str, name: &str) -> (r: bool)
    ensures
        r == has_command(c@, repository@, name@),
{
    let mut i: usize = 0;
    while i < c.commands.len()
        invariant
            i <= c.commands@.len(),
            forall|k: int|
                0 <= k < i ==> !((#[trigger] c@.commands[k]).repository == repository@ && c@.commands[k].name == name@),
        decreases c.commands.len() - i,
    {
        assert(c@.commands[i as int] == c.commands@[i as int]@);
        if str_eq(c.commands[i].repository.as_str(), repository) && str_eq(c.commands[i].name.as_str(), name) {
            return true;
        }
        i = i + 1;
    }
    false
}

fn collect_command(
    c: Collected,
    targets: &Vec<String>,
    name: &str,
    command: &str,
    source: &EntrySource,
) -> (r: Result<Collected, String>)
    ensures
        match r {
            Ok(after) => with_command(c@, strs(targets@), name@, command@, source@) == Ok::<CollectedView, Seq<char>>(
                after@,
            ),
            Err(e) => with_command(c@, strs(targets@), name@, command@, source@) == Err::<CollectedView, Seq<char>>(e@),
        },
{
    let ghost start = c@;
    let ghost all = strs(targets@);
    let mut after = c;
    let mut i: usize = 0;
    assert(all.take(0) =~= Seq::<Seq<char>>::empty());
    while i < targets.len()
        invariant
            i <= targets@.len(),
            all == strs(targets@),
            start == c@,
            with_command(start, all.take(i as int), name@, command@, source@) == Ok::<CollectedView, Seq<char>>(after@),
        decreases targets.len() - i,
    {
        assert(all.take(i + 1).drop_last() =~= all.take(i as int));
        assert(all.take(i + 1).last() == targets@[i as int]@);
        let target = targets[i].as_str();
        if knows_command(&after, target, name) {
            proof {
                lemma_command_fails_early(start, all, name@, command@, source@, i + 1);
            }
            return Err(concat4("duplicate verification command `", name, "` for repository ", target));
        }
        let ghost before = after@;
        let entry = CommandEntry {
            repository: target.to_owned(),
            name: name.to_owned(),
            command: command.to_owned(),
            source: source_of(source.repository.as_str(), source.commit.as_str(), source.path.as_str()),
        };
        after.commands.push(entry);
        assert(after@.commands =~= before.commands.push(entry@));
        assert(after@.workflows =~= before.workflows);
        assert(after@.ensures =~= before.ensures);
        i = i + 1;
    }
    assert(all.take(all.len() as int) =~= all);
    Ok(after)
}

fn copy_ensure(e: &EnsureEntry) -> (r: EnsureEntry)
    ensures
        r == *e,
{
    EnsureEntry {
        driver: opt_clone(&e.driver),
        workflow: e.workflow.clone(),
        placement: opt_clone(&e.placement),
        stance: opt_clone(&e.stance),
        presents_as: opt_clone(&e.presents_as),
    }
}

fn collect_entry(
    c: Collected,
    project: &str,
    aliases: &OrderedMap<String>,
    all_code: &Vec<String>,
    source: EntrySource,
    entry: &OperationalEntry,
) -> (r: Result<Collected, String>)
    ensures
        match r {
            Ok(after) => with_entry(c@, project@, text_map(aliases@), strs(all_code@), source@, *entry) == Ok::<
                CollectedView,
                Seq<char>,
            >(after@),
            Err(e) => with_entry(c@, project@, text_map(aliases@), strs(all_code@), source@, *entry) == Err::<
                CollectedView,
                Seq<char>,
            >(e@),
        },
{
    let ghost before = c@;
    let targets = entry_targets(source.path.as_str(), entry, aliases, all_code)?;
    let mut c = c;
    match &entry.definition {
        EntryDefinition::WorkflowTemplate { template, errors } => {
            if errors.len() > 0 {
                let joined = join_strs(errors, "; ");
                return Err(
                    concat5(
                        source.path.as_str(),
                        " contains invalid workflow template `",
                        entry.name.as_str(),
                        "`: ",
                        joined.as_str(),
                    ),
                );
            }
            if c.workflows.contains_key(entry.name.as_str()) {
                return Err(concat3("duplicate materialized WorkflowTemplate `", entry.name.as_str(), "`"));
            }
            let workflow = WorkflowEntry { name: entry.name.clone(), source, template: template.clone(), targets };
            let ghost was = c.workflows@;
            c.workflows.insert(entry.name.clone(), workflow);
            assert(c@.workflows =~= before.workflows.insert(entry.name@, workflow@)) by {
                assert(c.workflows@ == was.insert(entry.name@, workflow));
            }
            assert(c@.commands =~= before.commands);
            assert(c@.ensures =~= before.ensures);
            Ok(c)
        },
        EntryDefinition::VerificationCommand { command } => collect_command(
            c,
            &targets,
            entry.name.as_str(),
            command.as_str(),
            &source,
        ),
        EntryDefinition::Ensure { ensure } => {
            let name = convoy_ensure_name(project, entry.name.as_str());
            if c.ensures.contains_key(name.as_str()) {
                return Err(
                    concat5(
                        "duplicate standing convoy role `",
                        entry.name.as_str(),
                        "` in project `",
                        project,
                        "`",
                    ),
                );
            }
            let key = name.clone();
            let definition = EnsureDefinition {
                name,
                role: entry.name.clone(),
                source,
                ensure: copy_ensure(ensure),
                repositories: targets,
            };
            let ghost was = c.ensures@;
            c.ensures.insert(key, definition);
            assert(c@.ensures =~= before.ensures.insert(ensure_name(project@, entry.name@), definition@)) by {
                assert(c.ensures@ == was.insert(key@, definition));
            }
            assert(c@.commands =~= before.commands);
            assert(c@.workflows =~= before.workflows);
            Ok(c)
        },
    }
}

/// Adds to what was collected what the entries in the files of a repository
/// ask for.
pub fn collect_files(
    collected: Collected,
    project_name: &str,
    aliases: &OrderedMap<String>,
    all_code: &Vec<String>,
    repository: &str,
    commit: &str,
    files: &Vec<OperationalFile>,
) -> (r: Result<Collected, String>)
    ensures
        match r {
            Ok(after) => with_files(
                collected@,
                project_name@,
                text_map(aliases@),
                strs(all_code@),
                repository@,
                commit@,
                files@,
            ) == Ok::<CollectedView, Seq<char>>(after@),
            Err(e) => with_files(
                collected@,
                project_name@,
                text_map(aliases@),
                strs(all_code@),
                repository@,
                commit@,
                files@,
            ) == Err::<CollectedView, Seq<char>>(e@),
        },
{
    let ghost start = collected@;
    let ghost known = text_map(aliases@);
    let ghost code = strs(all_code@);
    let ghost all = files@;
    let mut c = collected;
    let mut i: usize = 0;
    assert(all.take(0) =~= Seq::<OperationalFile>::empty());
    while i < files.len()
        invariant
            i <= files@.len(),
            all == files@,
            known == text_map(aliases@),
            code == strs(all_code@),
            start == collected@,
            with_files(start, project_name@, known, code, repository@, commit@, all.take(i as int)) == Ok::<
                CollectedView,
                Seq<char>,
            >(c@),
        decreases files.len() - i,
    {
        let file = &files[i];
        assert(all.take(i + 1).drop_last() =~= all.take(i as int));
        assert(all.take(i + 1).last() == *file);
        match &file.entry {
            Err(e) => {
                proof {
                    lemma_files_fail_early(
                        start,
                        project_name@,
                        known,
                        code,
                        repository@,
                        commit@,
                        all,
                        i + 1,
                    );
                }
                return Err(concat3(file.path.as_str(), ": ", e.as_str()));
            },
            Ok(None) => {},
            Ok(Some(entry)) => {
                let at = source_of(repository, commit, file.path.as_str());
                match collect_entry(c, project_name, aliases, all_code, at, entry) {
                    Err(e) => {
                        proof {
                            lemma_files_fail_early(
                                start,
                                project_name@,
                                known,
                                code,
                                repository@,
                                commit@,
                                all,
                                i + 1,
                            );
                        }
                        return Err(e);
                    },
                    Ok(after) => {
                        c = after;
                    },
                }
            },
        }
        i = i + 1;
    }
    assert(all.take(all.len() as int) =~= all);
    Ok(c)
}

/// Adds to what was collected what the entries of a source ask for.
pub fn collect_operational_entries(
    collected: Collected,
    project_name: &str,
    aliases: &OrderedMap<String>,
    all_code: &Vec<String>,
    source: &OperationalSource,
) -> (r: Result<Collected, String>)
    ensures
        match r {
            Ok(after) => with_files(
                collected@,
                project_name@,
                text_map(aliases@),
                strs(all_code@),
                source.repository@,
                source.commit@,
                source.files@,
            ) == Ok::<CollectedView, Seq<char>>(after@),
            Err(e) => with_files(
                collected@,
                project_name@,
                text_map(aliases@),
                strs(all_code@),
                source.repository@,
                source.commit@,
                source.files@,
            ) == Err::<CollectedView, Seq<char>>(e@),
        },
{
    collect_files(
        collected,
        project_name,
        aliases,
        all_code,
        source.repository.as_str(),
        source.commit.as_str(),
        &source.files,
    )
}

/// The files of a repository at a commit, by value.
pub struct SourceFiles {
    pub repository: Seq<char>,
    pub commit: Seq<char>,
    pub files: Seq<OperationalFile>,
}

/// What is collected from all sources, one after the other.
pub open spec fn with_sources(
    project: Seq<char>,
    aliases: Map<Seq<char>, Seq<char>>,
    all_code: Seq<Seq<char>>,
    sources: Seq<SourceFiles>,
) -> Result<CollectedView, Seq<char>>
    decreases sources.len(),
{
    if sources.len() == 0 {
        Ok(CollectedView { workflows: Map::empty(), commands: Seq::empty(), ensures: Map::empty() })
    } else {
        match with_sources(project, aliases, all_code, sources.drop_last()) {
            Err(e) => Err(e),
            Ok(before) => with_files(
                before,
                project,
                aliases,
                all_code,
                sources.last().repository,
                sources.last().commit,
                sources.last().files,
            ),
        }
    }
}

pub proof fn lemma_sources_fail_early(
    project: Seq<char>,
    aliases: Map<Seq<char>, Seq<char>>,
    all_code: Seq<Seq<char>>,
    sources: Seq<SourceFiles>,
    n: int,
)
    requires
        0 <= n <= sources.len(),
        with_sources(project, aliases, all_code, sources.take(n)) is Err,
    ensures
        with_sources(project, aliases, all_code, sources) == with_sources(project, aliases, all_code, sources.take(n)),
    decreases sources.len() - n,
{
    if n < sources.len() {
        assert(sources.take(n + 1).drop_last() =~= sources.take(n));
        lemma_sources_fail_early(project, aliases, all_code, sources, n + 1);
    } else {
        assert(sources.take(n) =~= sources);
    }
}

/// No repository has two commands of one name.
pub open spec fn distinct_commands(c: CollectedView) -> bool {
    forall|i: int, j: int|
        0 <= i < j < c.commands.len() ==> !((#[trigger] c.commands[i]).repository == (
        #[trigger] c.commands[j]).repository && c.commands[i].name == c.commands[j].name)
}

/// Nothing that was collected before is lost or replaced.
pub open spec fn kept(before: CollectedView, after: CollectedView) -> bool {
    &&& before.workflows.submap_of(after.workflows)
    &&& before.ensures.submap_of(after.ensures)
}

/// What is collected for an entry is its own.
pub open spec fn stands_for(c: CollectedView, project: Seq<char>, source: SourceView, entry: OperationalEntry) -> bool {
    match entry.definition {
        EntryDefinition::WorkflowTemplate { .. } => c.workflows.dom().contains(entry.name@) && c.workflows[entry.name@].source
            == source,
        EntryDefinition::VerificationCommand { .. } => true,
        EntryDefinition::Ensure { .. } => {
            let name = ensure_name(project, entry.name@);
            c.ensures.dom().contains(name) && c.ensures[name].source == source
        },
    }
}

/// Each file's entry has what was collected for it.
pub open spec fn all_stand(
    c: CollectedView,
    project: Seq<char>,
    repository: Seq<char>,
    commit: Seq<char>,
    files: Seq<OperationalFile>,
) -> bool {
    forall|i: int|
        0 <= i < files.len() ==> ((#[trigger] files[i]).entry matches Ok(Some(entry)) ==> stands_for(
            c,
            project,
            SourceView { repository, commit, path: files[i].path@ },
            entry,
        ))
}

proof fn lemma_command_distinct(
    c: CollectedView,
    targets: Seq<Seq<char>>,
    name: Seq<char>,
    command: Seq<char>,
    source: SourceView,
)
    requires
        distinct_commands(c),
    ensures
        with_command(c, targets, name, command, source) matches Ok(after) ==> distinct_commands(after) && kept(c, after),
    decreases targets.len(),
{
    if targets.len() > 0 {
        lemma_command_distinct(c, targets.drop_last(), name, command, source);
    }
}

proof fn lemma_kept_on(a: CollectedView, b: CollectedView, c: CollectedView)
    requires
        kept(a, b),
        kept(b, c),
    ensures
        kept(a, c),
{
    assert forall|k: Seq<char>| #[trigger] a.workflows.dom().contains(k) implies c.workflows.dom().contains(k)
        && a.workflows[k] == c.workflows[k] by {
        assert(b.workflows.dom().contains(k));
        assert(a.workflows[k] == b.workflows[k]);
        assert(c.workflows.dom().contains(k));
        assert(b.workflows[k] == c.workflows[k]);
    }
    assert forall|k: Seq<char>| #[trigger] a.ensures.dom().contains(k) implies c.ensures.dom().contains(k) && a.ensures[k]
        == c.ensures[k] by {
        assert(b.ensures.dom().contains(k));
        assert(a.ensures[k] == b.ensures[k]);
        assert(c.ensures.dom().contains(k));
        assert(b.ensures[k] == c.ensures[k]);
    }
}

proof fn lemma_files_stand(
    c: CollectedView,
    project: Seq<char>,
    aliases: Map<Seq<char>, Seq<char>>,
    all_code: Seq<Seq<char>>,
    repository: Seq<char>,
    commit: Seq<char>,
    files: Seq<OperationalFile>,
)
    requires
        distinct_commands(c),
    ensures
        with_files(c, project, aliases, all_code, repository, commit, files) matches Ok(after) ==> distinct_commands(after)
            && kept(c, after) && all_stand(after, project, repository, commit, files),
    decreases files.len(),
{
    if files.len() > 0 {
        let front = files.drop_last();
        lemma_files_stand(c, project, aliases, all_code, repository, commit, front);
        match with_files(c, project, aliases, all_code, repository, commit, front) {
            Err(_) => {},
            Ok(before) => match files.last().entry {
                Ok(Some(entry)) => {
                    let source = SourceView { repository, commit, path: files.last().path@ };
                    match targets_of(source.path, entry, aliases, all_code) {
                        Err(_) => {},
                        Ok(targets) => match entry.definition {
                            EntryDefinition::VerificationCommand { command } => {
                                lemma_command_distinct(before, targets, entry.name@, command@, source);
                            },
                            _ => {},
                        },
                    }
                    match with_entry(before, project, aliases, all_code, source, entry) {
                        Err(_) => {},
                        Ok(after) => {
                            assert(kept(before, after) && distinct_commands(after));
                            lemma_kept_on(c, before, after);
                            assert(after == with_files(c, project, aliases, all_code, repository, commit, files)->Ok_0);
                            assert forall|i: int| 0 <= i < files.len() implies ((#[trigger] files[i]).entry matches Ok(
                                Some(entry),
                            ) ==> stands_for(after, project, SourceView { repository, commit, path: files[i].path@ }, entry)) by {
                                if i < front.len() {
                                    assert(front[i] == files[i]);
                                }
                            }
                        },
                    }
                },
                _ => {
                    assert forall|i: int| 0 <= i < files.len() implies ((#[trigger] files[i]).entry matches Ok(Some(entry))
                        ==> stands_for(before, project, SourceView { repository, commit, path: files[i].path@ }, entry)) by {
                        if i < front.len() {
                            assert(front[i] == files[i]);
                        }
                    }
                },
            },
        }
    }
}

/// Entries never compete: what is materialised under the name of an entry is
/// that entry's own, and no repository is given two commands of one name.
pub proof fn law_entries_do_not_compete(
    project: Seq<char>,
    aliases: Map<Seq<char>, Seq<char>>,
    all_code: Seq<Seq<char>>,
    sources: Seq<SourceFiles>,
)
    ensures
        with_sources(project, aliases, all_code, sources) matches Ok(c) ==> distinct_commands(c) && forall|s: int|
            0 <= s < sources.len() ==> all_stand(
                c,
                project,
                (#[trigger] sources[s]).repository,
                sources[s].commit,
                sources[s].files,
            ),
    decreases sources.len(),
{
    if sources.len() > 0 {
        let front = sources.drop_last();
        law_entries_do_not_compete(project, aliases, all_code, front);
        match with_sources(project, aliases, all_code, front) {
            Err(_) => {},
            Ok(before) => {
                let last = sources.last();
                lemma_files_stand(before, project, aliases, all_code, last.repository, last.commit, last.files);
                match with_sources(project, aliases, all_code, sources) {
                    Err(_) => {},
                    Ok(after) => {
                        assert forall|s: int| 0 <= s < sources.len() implies all_stand(
                            after,
                            project,
                            (#[trigger] sources[s]).repository,
                            sources[s].commit,
                            sources[s].files,
                        ) by {
                            if s < front.len() {
                                assert(front[s] == sources[s]);
                                assert(all_stand(before, project, front[s].repository, front[s].commit, front[s].files));
                            }
                        }
                    },
                }
            },
        }
    }
}

} // verus!
