//! What holds of everything that a project declares and of what is made of it,
//! and of how a convoy is put on record.
use vstd::prelude::*;

use crate::creation::{ConvoyLabelNames, SnapshotReading};
use crate::materialize::{
    changed, checkout_choice, commands_for, mains, ops_source_of, record_action, record_at, record_problem, records_planned, sources_for,
    stale, verified_step, CurrentRecord, DesiredRecord, ListedRecord, LocalCheckout, OpsSource, RecordAction, RecordPlan,
    VerificationStep, VerificationView,
};
use crate::operations::{
    alias_targets, ensure_name, targets_of, with_command, with_entry, CollectedView, CommandEntry, CommandView, EntryDefinition,
    OperationalEntry, SourceView,
};
use crate::ordered::text_map;
use crate::recording::{record_decided, snapshot_of, NewConvoy, RecordReadings, RecordStep, SnapshotReadings};
use crate::refresh::{
    code_members, first_unsettled, gather_decided, gathered, member_aliases, out_of_reach, settled, GatherStep, OpsReading,
    RefreshMember,
};
use crate::text::{decimal, holds, opt, strs};

verus! {

proof fn lemma_alias_targets(
    path: Seq<char>,
    name: Seq<char>,
    code_only: bool,
    named: Seq<Seq<char>>,
    aliases: Map<Seq<char>, Seq<char>>,
    all_code: Seq<Seq<char>>,
)
    ensures
        alias_targets(path, name, code_only, named, aliases, all_code) is Ok <==> forall|k: int|
            0 <= k < named.len() ==> aliases.dom().contains(#[trigger] named[k]) && (code_only ==> holds(all_code, aliases[named[k]])),
        alias_targets(path, name, code_only, named, aliases, all_code) matches Ok(targets) ==> targets.len() == named.len() && forall|k: int|
            0 <= k < named.len() ==> #[trigger] targets[k] == aliases[named[k]],
    decreases named.len(),
{
    if named.len() > 0 {
        let front = named.drop_last();
        lemma_alias_targets(path, name, code_only, front, aliases, all_code);
        let n = named.len() - 1;
        assert(named[n] == named.last());
        assert(forall|k: int| 0 <= k < n ==> #[trigger] named[k] == front[k]);
        assert(forall|k: int| 0 <= k < n ==> #[trigger] front[k] == named[k]);
        let whole = forall|k: int|
            0 <= k < named.len() ==> aliases.dom().contains(#[trigger] named[k]) && (code_only ==> holds(all_code, aliases[named[k]]));
        let part = forall|k: int|
            0 <= k < front.len() ==> aliases.dom().contains(#[trigger] front[k]) && (code_only ==> holds(all_code, aliases[front[k]]));
        if whole {
            assert forall|k: int| 0 <= k < front.len() implies aliases.dom().contains(#[trigger] front[k]) && (code_only ==> holds(
                all_code,
                aliases[front[k]],
            )) by {
                assert(aliases.dom().contains(named[k]));
            }
        }
        if part && aliases.dom().contains(named[n]) && (code_only ==> holds(all_code, aliases[named[n]])) {
            assert forall|k: int| 0 <= k < named.len() implies aliases.dom().contains(#[trigger] named[k]) && (code_only ==> holds(
                all_code,
                aliases[named[k]],
            )) by {
                if k < n {
                    assert(aliases.dom().contains(front[k]));
                }
            }
        }
    }
}

/// An entry is for the repositories that it names by their aliases, in order,
/// and for all that hold code where it names none; all of them have to be
/// known, and to hold code unless the entry is a workflow; and there has to be
/// one.
pub proof fn law_entries_are_for_the_repositories_they_name(
    path: Seq<char>,
    entry: OperationalEntry,
    aliases: Map<Seq<char>, Seq<char>>,
    all_code: Seq<Seq<char>>,
)
    ensures
        targets_of(path, entry, aliases, all_code) matches Ok(targets) ==> targets.len() > 0,
        entry.repos is None ==> (targets_of(path, entry, aliases, all_code) is Ok <==> all_code.len() > 0),
        entry.repos is None ==> (targets_of(path, entry, aliases, all_code) matches Ok(targets) ==> targets == all_code),
        entry.repos matches Some(named) ==> (targets_of(path, entry, aliases, all_code) matches Ok(targets) ==> targets.len() == named@.len()
            && forall|k: int|
            0 <= k < named@.len() ==> aliases.dom().contains((#[trigger] named@[k])@) && targets[k] == aliases[named@[k]@] && (
            entry.definition is WorkflowTemplate || holds(all_code, targets[k]))),
        entry.repos matches Some(named) ==> (named@.len() > 0 && (forall|k: int|
            0 <= k < named@.len() ==> aliases.dom().contains((#[trigger] named@[k])@) && (entry.definition is WorkflowTemplate || holds(
                all_code,
                aliases[named@[k]@],
            ))) ==> targets_of(path, entry, aliases, all_code) is Ok),
{
    if entry.repos is Some {
        let list = entry.repos->0@;
        let named = strs(list);
        let code_only = !(entry.definition is WorkflowTemplate);
        lemma_alias_targets(path, entry.name@, code_only, named, aliases, all_code);
        assert(named.len() == list.len());
        assert forall|k: int| 0 <= k < list.len() implies (#[trigger] list[k])@ == named[k] by {}
        if targets_of(path, entry, aliases, all_code) is Ok {
            assert forall|k: int| 0 <= k < list.len() implies aliases.dom().contains((#[trigger] list[k])@) && (code_only ==> holds(
                all_code,
                aliases[list[k]@],
            )) by {
                assert(aliases.dom().contains(named[k]));
            }
        }
        if list.len() > 0 && (forall|k: int|
            0 <= k < list.len() ==> aliases.dom().contains((#[trigger] list[k])@) && (entry.definition is WorkflowTemplate || holds(
                all_code,
                aliases[list[k]@],
            ))) {
            assert forall|k: int| 0 <= k < named.len() implies aliases.dom().contains(#[trigger] named[k]) && (code_only ==> holds(
                all_code,
                aliases[named[k]],
            )) by {
                assert(aliases.dom().contains(list[k]@));
            }
        }
    }
}

proof fn lemma_with_command(c: CollectedView, targets: Seq<Seq<char>>, name: Seq<char>, command: Seq<char>, source: SourceView)
    ensures
        with_command(c, targets, name, command, source) matches Ok(after) ==> {
            &&& after.workflows == c.workflows
            &&& after.ensures == c.ensures
            &&& after.commands.len() == c.commands.len() + targets.len()
            &&& forall|i: int| 0 <= i < c.commands.len() ==> #[trigger] after.commands[i] == c.commands[i]
            &&& forall|k: int|
                0 <= k < targets.len() ==> after.commands[c.commands.len() + k] == (CommandView {
                    repository: #[trigger] targets[k],
                    name,
                    command,
                    source,
                })
        },
    decreases targets.len(),
{
    if targets.len() > 0 {
        let front = targets.drop_last();
        lemma_with_command(c, front, name, command, source);
        assert(forall|k: int| 0 <= k < front.len() ==> #[trigger] targets[k] == front[k]);
        assert(targets[targets.len() - 1] == targets.last());
        if with_command(c, targets, name, command, source) is Ok {
            let after = with_command(c, targets, name, command, source)->Ok_0;
            let before = with_command(c, front, name, command, source)->Ok_0;
            assert forall|k: int| 0 <= k < targets.len() implies after.commands[c.commands.len() + k] == (CommandView {
                repository: #[trigger] targets[k],
                name,
                command,
                source,
            }) by {
                if k < front.len() {
                    assert(front[k] == targets[k]);
                    assert(before.commands[c.commands.len() + k] == (CommandView { repository: front[k], name, command, source }));
                }
            }
        }
    }
}

/// An entry adds what it says, where it is from and for whom, and takes away
/// nothing: a workflow under its name, a command for each of its repositories,
/// or an ensure with all that it asks for.
pub proof fn law_entries_add_what_they_say(
    c: CollectedView,
    project: Seq<char>,
    aliases: Map<Seq<char>, Seq<char>>,
    all_code: Seq<Seq<char>>,
    source: SourceView,
    entry: OperationalEntry,
    after: CollectedView,
)
    requires
        with_entry(c, project, aliases, all_code, source, entry) == Ok::<CollectedView, Seq<char>>(after),
    ensures
        targets_of(source.path, entry, aliases, all_code) is Ok,
        ({
            let targets = targets_of(source.path, entry, aliases, all_code)->Ok_0;
            match entry.definition {
                EntryDefinition::WorkflowTemplate { template, errors } => {
                    &&& errors@.len() == 0
                    &&& !c.workflows.dom().contains(entry.name@)
                    &&& after.workflows.dom().contains(entry.name@)
                    &&& after.workflows[entry.name@].template == template@
                    &&& after.workflows[entry.name@].targets == targets
                    &&& after.workflows[entry.name@].source == source
                    &&& after.workflows.remove(entry.name@) == c.workflows
                    &&& after.commands == c.commands && after.ensures == c.ensures
                },
                EntryDefinition::VerificationCommand { command } => {
                    &&& after.workflows == c.workflows && after.ensures == c.ensures
                    &&& after.commands.len() == c.commands.len() + targets.len()
                    &&& forall|i: int| 0 <= i < c.commands.len() ==> #[trigger] after.commands[i] == c.commands[i]
                    &&& forall|k: int|
                        0 <= k < targets.len() ==> after.commands[c.commands.len() + k] == (CommandView {
                            repository: #[trigger] targets[k],
                            name: entry.name@,
                            command: command@,
                            source,
                        })
                },
                EntryDefinition::Ensure { ensure } => {
                    let name = ensure_name(project, entry.name@);
                    &&& !c.ensures.dom().contains(name)
                    &&& after.ensures.dom().contains(name)
                    &&& after.ensures[name].role == entry.name@
                    &&& after.ensures[name].source == source
                    &&& after.ensures[name].driver == opt(ensure.driver)
                    &&& after.ensures[name].workflow == ensure.workflow@
                    &&& after.ensures[name].placement == opt(ensure.placement)
                    &&& after.ensures[name].stance == opt(ensure.stance)
                    &&& after.ensures[name].presents_as == opt(ensure.presents_as)
                    &&& after.ensures[name].repositories == targets
                    &&& after.ensures.remove(name) == c.ensures
                    &&& after.commands == c.commands && after.workflows == c.workflows
                },
            }
        }),
{
    let targets = targets_of(source.path, entry, aliases, all_code)->Ok_0;
    match entry.definition {
        EntryDefinition::VerificationCommand { command } => {
            lemma_with_command(c, targets, entry.name@, command@, source);
        },
        EntryDefinition::WorkflowTemplate { .. } => {
            assert(after.workflows.remove(entry.name@) =~= c.workflows);
        },
        EntryDefinition::Ensure { .. } => {
            assert(after.ensures.remove(ensure_name(project, entry.name@)) =~= c.ensures);
        },
    }
}

/// A record is made where there is none, left where it is as it should be,
/// and brought up to date otherwise; and only where it can be made at all and
/// does not belong to anybody else.
pub proof fn law_records_of_others_are_left(
    kind: Seq<char>,
    project: Seq<char>,
    owner_key: Seq<char>,
    name: Seq<char>,
    desired: DesiredRecord,
    current: Option<CurrentRecord>,
)
    ensures
        record_problem(kind, project, owner_key, name, desired, current) is None <==> desired.problem is None && (
        current matches Some(c) ==> c.annotations@.dom().contains(owner_key) && c.annotations@[owner_key]@ == project),
        record_action(desired, current) is Create <==> current is None,
        record_action(desired, current) is Keep <==> (current matches Some(c) && c.same_spec && text_map(c.annotations@) == text_map(
            desired.annotations@,
        )),
{
}

/// The records are gone through in order, up to the first that cannot be had:
/// what was done before stays done, and nothing behind it is touched.
pub proof fn law_records_are_made_up_to_the_first_refusal(
    r: RecordPlan,
    kind: Seq<char>,
    project: Seq<char>,
    owner_key: Seq<char>,
    names: Seq<Seq<char>>,
    desired: Map<Seq<char>, DesiredRecord>,
    current: Map<Seq<char>, CurrentRecord>,
    i: int,
)
    requires
        records_planned(r, kind, project, owner_key, names, desired, current),
    ensures
        r.refused is None ==> r.actions@.len() == names.len(),
        r.refused is Some ==> r.actions@.len() < names.len(),
        0 <= i < r.actions@.len() ==> desired[names[i]].problem is None && (r.actions@[i] is Create
            <==> !current.dom().contains(names[i])) && (current.dom().contains(names[i]) ==> current[names[i]].annotations@.dom().contains(
            owner_key,
        ) && current[names[i]].annotations@[owner_key]@ == project),
        r.refused is Some && i == r.actions@.len() ==> desired[names[i]].problem is Some || (current.dom().contains(names[i]) && !(
        current[names[i]].annotations@.dom().contains(owner_key) && current[names[i]].annotations@[owner_key]@ == project)),
{
    if 0 <= i < r.actions@.len() {
        assert(r.actions@[i] == record_action(desired[names[i]], record_at(current, names[i])));
    }
}

proof fn lemma_stale(listed: Seq<ListedRecord>, project: Seq<char>, wanted: Seq<Seq<char>>, name: Seq<char>)
    ensures
        holds(stale(listed, project, wanted), name) <==> !holds(wanted, name) && exists|i: int|
            0 <= i < listed.len() && (#[trigger] listed[i]).name@ == name && opt(listed[i].owner) == Some(project),
    decreases listed.len(),
{
    if listed.len() > 0 {
        let front = listed.drop_last();
        lemma_stale(front, project, wanted, name);
        let before = stale(front, project, wanted);
        let all = stale(listed, project, wanted);
        let n = listed.len() - 1;
        assert(listed[n] == listed.last());
        if holds(all, name) {
            let k = choose|k: int| 0 <= k < all.len() && #[trigger] all[k] == name;
            if k < before.len() {
                assert(before[k] == name);
                let i = choose|i: int| 0 <= i < front.len() && (#[trigger] front[i]).name@ == name && opt(front[i].owner) == Some(project);
                assert(listed[i] == front[i]);
            }
        }
        if !holds(wanted, name) && exists|i: int|
            0 <= i < listed.len() && (#[trigger] listed[i]).name@ == name && opt(listed[i].owner) == Some(project) {
            let i = choose|i: int| 0 <= i < listed.len() && (#[trigger] listed[i]).name@ == name && opt(listed[i].owner) == Some(project);
            if i < n {
                assert(front[i] == listed[i]);
                assert(holds(before, name));
                let k = choose|k: int| 0 <= k < before.len() && #[trigger] before[k] == name;
                assert(all[k] == name);
            } else {
                assert(all[before.len() as int] == name);
            }
        }
    }
}

/// What goes stale is exactly what the project made and does not want any
/// more.
pub proof fn law_unwanted_records_go_stale(listed: Seq<ListedRecord>, project: Seq<char>, wanted: Seq<Seq<char>>, name: Seq<char>)
    ensures
        holds(stale(listed, project, wanted), name) <==> !(exists|w: int| 0 <= w < wanted.len() && #[trigger] wanted[w] == name)
            && exists|i: int| 0 <= i < listed.len() && (#[trigger] listed[i]).name@ == name && opt(listed[i].owner) == Some(project),
{
    lemma_stale(listed, project, wanted, name);
    assert(holds(wanted, name) <==> exists|w: int| 0 <= w < wanted.len() && #[trigger] wanted[w] == name);
}

/// A change is told of every record that was not simply kept, and of no
/// other.
pub proof fn law_changes_are_told_of_changed_records(kind: Seq<char>, names: Seq<Seq<char>>, actions: Seq<RecordAction>, i: int)
    ensures
        0 <= i < actions.len() && !(actions[i] is Keep) ==> holds(changed(kind, names, actions), kind + "/"@ + names[i]),
        changed(kind, names, actions).len() <= actions.len(),
        (forall|k: int| 0 <= k < actions.len() ==> #[trigger] actions[k] is Keep) ==> changed(kind, names, actions).len() == 0,
    decreases actions.len(),
{
    if actions.len() > 0 {
        let front = actions.drop_last();
        law_changes_are_told_of_changed_records(kind, names, front, i);
        let before = changed(kind, names, front);
        let all = changed(kind, names, actions);
        assert(actions[actions.len() - 1] == actions.last());
        if 0 <= i < actions.len() && !(actions[i] is Keep) {
            let line = kind + "/"@ + names[i];
            if i < front.len() {
                assert(front[i] == actions[i]);
                let k = choose|k: int| 0 <= k < before.len() && #[trigger] before[k] == line;
                assert(all[k] == line);
            } else {
                assert(all[before.len() as int] == line);
            }
        }
        if forall|k: int| 0 <= k < actions.len() ==> #[trigger] actions[k] is Keep {
            assert forall|k: int| 0 <= k < front.len() implies #[trigger] front[k] is Keep by {
                assert(actions[k] is Keep);
            }
        }
    }
}

proof fn lemma_command_names(commands: Seq<CommandEntry>, repository: Seq<char>, name: Seq<char>)
    ensures
        commands_for(commands, repository).dom().contains(name) <==> exists|i: int|
            0 <= i < commands.len() && (#[trigger] commands[i]).repository@ == repository && commands[i].name@ == name,
    decreases commands.len(),
{
    if commands.len() > 0 {
        let front = commands.drop_last();
        lemma_command_names(front, repository, name);
        let n = commands.len() - 1;
        assert(commands[n] == commands.last());
        if exists|i: int| 0 <= i < commands.len() && (#[trigger] commands[i]).repository@ == repository && commands[i].name@ == name {
            let i = choose|i: int| 0 <= i < commands.len() && (#[trigger] commands[i]).repository@ == repository && commands[i].name@ == name;
            if i < n {
                assert(front[i] == commands[i]);
            }
        }
        if commands_for(front, repository).dom().contains(name) {
            let i = choose|i: int| 0 <= i < front.len() && (#[trigger] front[i]).repository@ == repository && front[i].name@ == name;
            assert(commands[i] == front[i]);
        }
    }
}

proof fn lemma_last_command(commands: Seq<CommandEntry>, repository: Seq<char>, name: Seq<char>, i: int)
    requires
        0 <= i < commands.len(),
        commands[i].repository@ == repository && commands[i].name@ == name,
        forall|j: int| i < j < commands.len() ==> !((#[trigger] commands[j]).repository@ == repository && commands[j].name@ == name),
    ensures
        commands_for(commands, repository)[name] == commands[i].command@,
    decreases commands.len(),
{
    let n = commands.len() - 1;
    assert(commands[n] == commands.last());
    if i < n {
        let front = commands.drop_last();
        assert(front[i] == commands[i]);
        assert forall|j: int| i < j < front.len() implies !((#[trigger] front[j]).repository@ == repository && front[j].name@ == name) by {
            assert(front[j] == commands[j]);
        }
        lemma_last_command(front, repository, name, i);
    }
}

/// The commands of a repository are those that were collected for it, the
/// last of each name, and none of any other repository.
pub proof fn law_commands_are_of_their_repository(commands: Seq<CommandEntry>, repository: Seq<char>, name: Seq<char>, i: int)
    ensures
        commands_for(commands, repository).dom().contains(name) <==> exists|k: int|
            0 <= k < commands.len() && (#[trigger] commands[k]).repository@ == repository && commands[k].name@ == name,
        0 <= i < commands.len() && commands[i].repository@ == repository && commands[i].name@ == name && (forall|j: int|
            i < j < commands.len() ==> !((#[trigger] commands[j]).repository@ == repository && commands[j].name@ == name)) ==> commands_for(
            commands,
            repository,
        )[name] == commands[i].command@,
{
    lemma_command_names(commands, repository, name);
    if 0 <= i < commands.len() && commands[i].repository@ == repository && commands[i].name@ == name && (forall|j: int|
        i < j < commands.len() ==> !((#[trigger] commands[j]).repository@ == repository && commands[j].name@ == name)) {
        lemma_last_command(commands, repository, name, i);
    }
}

/// The sources of a repository's commands are those of the commands that were
/// collected for it, one for each.
pub proof fn law_sources_are_of_their_repository(commands: Seq<CommandEntry>, repository: Seq<char>, k: int)
    requires
        0 <= k < sources_for(commands, repository).len(),
    ensures
        exists|i: int|
            0 <= i < commands.len() && (#[trigger] commands[i]).repository@ == repository && commands[i].source@ == sources_for(
                commands,
                repository,
            )[k],
    decreases commands.len(),
{
    let front = commands.drop_last();
    let before = sources_for(front, repository);
    let n = commands.len() - 1;
    assert(commands[n] == commands.last());
    if k < before.len() {
        law_sources_are_of_their_repository(front, repository, k);
        let i = choose|i: int| 0 <= i < front.len() && (#[trigger] front[i]).repository@ == repository && front[i].source@ == before[k];
        assert(commands[i] == front[i]);
    }
}

/// The commands of a repository are set only where they belong to the project
/// or to nobody and are none, and then to exactly those that it asks for, in
/// its name while it asks for any; those of another project, or of nobody, are
/// never touched.
pub proof fn law_commands_of_others_are_left(
    step: VerificationStep,
    project: Seq<char>,
    repository: Seq<char>,
    current: VerificationView,
    commands: Map<Seq<char>, Seq<char>>,
    provenance: Option<Seq<char>>,
)
    requires
        verified_step(step, project, repository, current, commands, provenance),
    ensures
        step matches VerificationStep::Update { state } ==> {
            &&& current.owner == Some(project) || (current.owner is None && current.commands.dom().len() == 0)
            &&& state@.commands == commands
            &&& state@.provenance == provenance
            &&& state@.owner == (if provenance is Some {
                Some(project)
            } else {
                None
            })
        },
        step is Refuse ==> current.owner != Some(project) && commands.dom().len() > 0,
        current.owner is Some && current.owner != Some(project) && commands.dom().len() > 0 ==> step is Refuse,
        current.owner != Some(project) && commands.dom().len() == 0 ==> step is Keep,
{
}

proof fn lemma_mains(checkouts: Seq<LocalCheckout>)
    ensures
        forall|k: int| 0 <= k < mains(checkouts).len() ==> 0 <= #[trigger] mains(checkouts)[k] < checkouts.len() && checkouts[mains(
            checkouts,
        )[k]].is_main,
        forall|i: int| 0 <= i < checkouts.len() && (#[trigger] checkouts[i]).is_main ==> mains(checkouts).contains(i),
    decreases checkouts.len(),
{
    if checkouts.len() > 0 {
        let front = checkouts.drop_last();
        lemma_mains(front);
        let before = mains(front);
        let all = mains(checkouts);
        assert(forall|i: int| 0 <= i < front.len() ==> #[trigger] front[i] == checkouts[i]);
        assert forall|k: int| 0 <= k < all.len() implies 0 <= #[trigger] all[k] < checkouts.len() && checkouts[all[k]].is_main by {
            if k < before.len() {
                assert(all[k] == before[k]);
            }
        }
        assert forall|i: int| 0 <= i < checkouts.len() && (#[trigger] checkouts[i]).is_main implies all.contains(i) by {
            if i < front.len() {
                assert(front[i] == checkouts[i]);
                let k = choose|k: int| 0 <= k < before.len() && before[k] == i;
                assert(all[k] == i);
            } else {
                assert(all[before.len() as int] == i);
            }
        }
    }
}

/// A checkout is read from where it is the only one or the only main one.
pub proof fn law_main_checkouts_are_read_from(checkouts: Seq<LocalCheckout>)
    ensures
        checkout_choice(checkouts) matches Some(c) ==> 0 <= c < checkouts.len() && (checkouts.len() == 1 || (checkouts[c].is_main
            && forall|i: int| 0 <= i < checkouts.len() && (#[trigger] checkouts[i]).is_main ==> i == c)),
        checkouts.len() == 1 ==> checkout_choice(checkouts) is Some,
        forall|c: int|
            0 <= c < checkouts.len() && (#[trigger] checkouts[c]).is_main && (forall|i: int|
                0 <= i < checkouts.len() && (#[trigger] checkouts[i]).is_main ==> i == c) && mains(checkouts).len() == 1
                ==> checkout_choice(checkouts) == Some(c),
{
    lemma_mains(checkouts);
    if mains(checkouts).len() == 1 {
        let c = mains(checkouts)[0];
        assert forall|i: int| 0 <= i < checkouts.len() && (#[trigger] checkouts[i]).is_main implies i == c by {
            assert(mains(checkouts).contains(i));
        }
    }
}

/// What a member says of operations is read from the declaration itself where
/// that is the member, from its checkout that is clear, and not at all where
/// there is none.
pub proof fn law_operations_are_read_from_a_clear_checkout(
    r: OpsSource,
    repo: Seq<char>,
    alias: Option<Seq<char>>,
    bootstrap: Seq<char>,
    checkouts: Seq<LocalCheckout>,
)
    requires
        ops_source_of(r, repo, alias, bootstrap, checkouts),
    ensures
        r is Bootstrap <==> repo == bootstrap,
        r is Unavailable <==> repo != bootstrap && checkouts.len() == 0,
        r matches OpsSource::Checkout { path } ==> exists|i: int| 0 <= i < checkouts.len() && (#[trigger] checkouts[i]).path@ == path@,
        repo != bootstrap && checkouts.len() == 1 ==> (r matches OpsSource::Checkout { path } && path@ == checkouts[0].path@),
{
    lemma_mains(checkouts);
    if r is Checkout {
        let i = checkout_choice(checkouts)->0;
        assert(checkouts[i].path@ == r->path@);
    }
}

proof fn lemma_first_unsettled(ops: Seq<OpsReading>, bootstrap: Seq<char>)
    ensures
        0 <= first_unsettled(ops, bootstrap) <= ops.len(),
        forall|i: int| 0 <= i < first_unsettled(ops, bootstrap) ==> settled(#[trigger] ops[i], bootstrap),
        first_unsettled(ops, bootstrap) < ops.len() ==> !settled(ops[first_unsettled(ops, bootstrap)], bootstrap),
    decreases ops.len(),
{
    if ops.len() > 0 && settled(ops[0], bootstrap) {
        let rest = ops.drop_first();
        lemma_first_unsettled(rest, bootstrap);
        assert forall|i: int| 0 <= i < first_unsettled(ops, bootstrap) implies settled(#[trigger] ops[i], bootstrap) by {
            if i > 0 {
                assert(rest[i - 1] == ops[i]);
            }
        }
    }
}

/// Nothing is put together before every member that says something of
/// operations was read, and nothing at all where one of them is out of reach;
/// a member that could not be read stops it.
pub proof fn law_all_members_are_read_first(
    step: GatherStep,
    project: Seq<char>,
    members: Seq<RefreshMember>,
    ops: Seq<OpsReading>,
    bootstrap: Seq<char>,
    commit: Seq<char>,
    i: int,
)
    requires
        gather_decided(step, project, members, ops, bootstrap, commit),
        0 <= i < ops.len(),
    ensures
        step is Collected ==> (ops[i].entries matches Some(Ok(_))) && (ops[i].repo@ == bootstrap || ops[i].checkouts@.len() > 0),
        step is Nothing ==> exists|k: int|
            0 <= k < ops.len() && (#[trigger] ops[k]).repo@ != bootstrap && ops[k].checkouts@.len() == 0,
        step matches GatherStep::Read { member, source } ==> member < ops.len() && ops[member as int].entries is None && (i < member ==> (
        ops[i].entries matches Some(Ok(_))) || (ops[i].repo@ != bootstrap && ops[i].checkouts@.len() == 0)),
{
    lemma_first_unsettled(ops, bootstrap);
    let at = first_unsettled(ops, bootstrap);
    if i < at {
        assert(settled(ops[i], bootstrap));
    }
    if at >= ops.len() && exists|k: int| 0 <= k < ops.len() && out_of_reach(#[trigger] ops[k], bootstrap) {
        let k = choose|k: int| 0 <= k < ops.len() && out_of_reach(#[trigger] ops[k], bootstrap);
        assert(ops[k].repo@ != bootstrap && ops[k].checkouts@.len() == 0);
    }
}

/// An alias means the last member that has it; the members that hold code are
/// those that say so.
pub proof fn law_members_are_told_by_alias_and_role(members: Seq<RefreshMember>, alias: Seq<char>, repo: Seq<char>)
    ensures
        member_aliases(members).dom().contains(alias) <==> exists|i: int|
            0 <= i < members.len() && opt((#[trigger] members[i]).alias) == Some(alias),
        forall|i: int|
            0 <= i < members.len() && opt((#[trigger] members[i]).alias) == Some(alias) && (forall|j: int|
                i < j < members.len() ==> opt((#[trigger] members[j]).alias) != Some(alias)) ==> member_aliases(members)[alias]
                == members[i].repo@,
        holds(code_members(members), repo) <==> exists|i: int|
            0 <= i < members.len() && (#[trigger] members[i]).code && members[i].repo@ == repo,
    decreases members.len(),
{
    if members.len() > 0 {
        let front = members.drop_last();
        law_members_are_told_by_alias_and_role(front, alias, repo);
        let n = members.len() - 1;
        assert(members[n] == members.last());
        assert(forall|i: int| 0 <= i < n ==> #[trigger] members[i] == front[i]);
        assert(forall|i: int| 0 <= i < n ==> #[trigger] front[i] == members[i]);
        assert forall|i: int|
            0 <= i < members.len() && opt((#[trigger] members[i]).alias) == Some(alias) && (forall|j: int|
                i < j < members.len() ==> opt((#[trigger] members[j]).alias) != Some(alias)) implies member_aliases(members)[alias]
            == members[i].repo@ by {
            if i < n {
                assert(opt(members[n].alias) != Some(alias));
                assert(opt(front[i].alias) == Some(alias));
                assert forall|j: int| i < j < front.len() implies opt((#[trigger] front[j]).alias) != Some(alias) by {
                    assert(opt(members[j].alias) != Some(alias));
                }
            }
        }
        let before = code_members(front);
        let all = code_members(members);
        if holds(all, repo) {
            let k = choose|k: int| 0 <= k < all.len() && #[trigger] all[k] == repo;
            if k < before.len() {
                assert(before[k] == repo);
            }
        }
        if exists|i: int| 0 <= i < members.len() && (#[trigger] members[i]).code && members[i].repo@ == repo {
            let i = choose|i: int| 0 <= i < members.len() && (#[trigger] members[i]).code && members[i].repo@ == repo;
            if i < n {
                assert(front[i].code && front[i].repo@ == repo);
                assert(holds(before, repo));
                let k = choose|k: int| 0 <= k < before.len() && #[trigger] before[k] == repo;
                assert(all[k] == repo);
            } else {
                assert(all[before.len() as int] == repo);
            }
        }
    }
}

/// A snapshot is called after what it holds; it is there when it was found the
/// same or was made, and a different one of its name is never taken for it.
pub proof fn law_snapshots_are_what_they_hold(kind: Seq<char>, rd: SnapshotReadings)
    ensures
        snapshot_of(kind, rd) matches Ok(name) ==> (rd.content matches Some(Ok(digest)) && name == kind + "-snapshot-"@ + digest@) && (
        rd.existing matches Some(SnapshotReading::Same) || (rd.existing matches Some(SnapshotReading::Absent)
            && rd.created matches Some(Ok(_)))),
        (rd.existing matches Some(SnapshotReading::Different)) ==> snapshot_of(kind, rd) is Err,
        (rd.existing matches Some(SnapshotReading::Unreadable { error })) ==> snapshot_of(kind, rd) is Err,
{
}

/// A convoy is put on record first, under its project, its role and its
/// generation, then what was decided of its placement is, and then it is told
/// of, to whoever dispatched it; each step after the last, and none past a
/// failure but that of telling.
pub proof fn law_convoys_are_recorded_before_they_are_told_of(
    step: RecordStep,
    convoy: NewConvoy,
    annotations: Map<Seq<char>, Seq<char>>,
    names: ConvoyLabelNames,
    rd: RecordReadings,
)
    requires
        record_decided(step, convoy, annotations, names, rd),
        names.project@ != names.role@ && names.project@ != names.generation@ && names.role@ != names.generation@,
    ensures
        step is Create <==> rd.created is None,
        step matches RecordStep::Create { labels, annotations: noted } ==> {
            let told = text_map(labels@);
            &&& told.dom().contains(names.role@) && told[names.role@] == convoy.role@
            &&& told.dom().contains(names.generation@) && told[names.generation@] == decimal(convoy.generation as nat)
            &&& told.dom().contains(names.project@) && told[names.project@] == (match convoy.project_ref {
                Some(project) => project@,
                None => ""@,
            })
            &&& text_map(noted@) == annotations
        },
        step matches RecordStep::SetDecision { decision } ==> (rd.created matches Some(Ok(_))) && convoy.placement_decision == Some(decision)
            && rd.decided is None,
        step matches RecordStep::EmitRegard { principal } ==> (rd.created matches Some(Ok(_))) && (convoy.placement_decision is Some ==> (
        rd.decided matches Some(Ok(_)))) && convoy.regard is Emit && opt(principal) == opt(convoy.dispatching_principal),
        step is Recorded ==> (rd.created matches Some(Ok(_))) && (convoy.placement_decision is Some ==> (rd.decided matches Some(Ok(_)))) && (
        convoy.regard is Emit ==> rd.regarded is Some),
        (rd.created matches Some(Err(_))) ==> step is Fail,
{
}

/// What is read of the repository of the project's own declaration counts as
/// of the commit that was asked for; what is read of any other, as of the
/// commit that it was read at.
pub proof fn law_declarations_are_of_the_commit_asked_for(ops: Seq<OpsReading>, bootstrap: Seq<char>, commit: Seq<char>, i: int)
    requires
        0 <= i < ops.len(),
        ops[i].entries is Some && ops[i].entries->0 is Ok,
    ensures
        gathered(ops, bootstrap, commit).len() == ops.len(),
        gathered(ops, bootstrap, commit)[i].files == ops[i].entries->0->Ok_0.files@,
        ops[i].repo@ == bootstrap ==> gathered(ops, bootstrap, commit)[i].commit == commit && gathered(ops, bootstrap, commit)[i].repository
            == bootstrap,
        ops[i].repo@ != bootstrap ==> gathered(ops, bootstrap, commit)[i].commit == ops[i].entries->0->Ok_0.commit@ && gathered(
            ops,
            bootstrap,
            commit,
        )[i].repository == ops[i].entries->0->Ok_0.repository@,
{
}

} // verus!
