//! Bringing records to what a project's operational entries ask for.
use vstd::prelude::*;

use crate::operations::{CommandEntry, EntrySource, SourceView};
use crate::ordered::{lex_sort, same_texts, sort_strs, strictly_sorted, text_map, OrderedMap};
use crate::text::{concat3, concat5, concat6, concat7, holds, opt, opt_eq, opt_is, str_eq, strs, strs_clone, strs_hold};

verus! {

/// The annotations that say where a materialised record comes from.
pub struct AnnotationNames {
    pub materialized_project: String,
    pub source_repository: String,
    pub source_commit: String,
    pub source_entry_path: String,
    pub presents_as: String,
}

/// The annotations of a record that a project materialises.
pub open spec fn annotations_of(
    names: AnnotationNames,
    project: Seq<char>,
    source: SourceView,
    presents_as: Option<Seq<char>>,
) -> Map<Seq<char>, Seq<char>> {
    let base = Map::<Seq<char>, Seq<char>>::empty().insert(names.materialized_project@, project).insert(
        names.source_repository@,
        source.repository,
    ).insert(names.source_commit@, source.commit).insert(names.source_entry_path@, source.path);
    match presents_as {
        Some(text) => base.insert(names.presents_as@, text),
        None => base,
    }
}

/// Sets one entry.
pub fn put(m: &mut OrderedMap<String>, key: &str, value: &str)
    ensures
        text_map(final(m)@) == text_map(old(m)@).insert(key@, value@),
{
    let ghost before = m@;
    m.insert(key.to_owned(), value.to_owned());
    assert(text_map(m@) =~= text_map(before).insert(key@, value@));
}

pub fn entry_annotations(
    names: &AnnotationNames,
    project: &str,
    source: &EntrySource,
    presents_as: &Option<String>,
) -> (r: OrderedMap<String>)
    ensures
        text_map(r@) == annotations_of(*names, project@, source@, opt(*presents_as)),
{
    let mut r: OrderedMap<String> = OrderedMap::new();
    assert(text_map(r@) =~= Map::<Seq<char>, Seq<char>>::empty());
    put(&mut r, names.materialized_project.as_str(), project);
    put(&mut r, names.source_repository.as_str(), source.repository.as_str());
    put(&mut r, names.source_commit.as_str(), source.commit.as_str());
    put(&mut r, names.source_entry_path.as_str(), source.path.as_str());
    match presents_as {
        Some(text) => {
            put(&mut r, names.presents_as.as_str(), text.as_str());
        },
        None => {},
    }
    r
}

/// A record as it should be.
#[derive(Debug)]
pub struct DesiredRecord {
    pub annotations: OrderedMap<String>,
    /// Set where something else keeps the record from being materialised.
    pub problem: Option<String>,
}

/// A record as it is.
#[derive(Debug)]
pub struct CurrentRecord {
    pub annotations: OrderedMap<String>,
    /// Whether its definition is the desired one.
    pub same_spec: bool,
}

/// What is done with a record.
#[derive(Debug, Clone, Copy, PartialEq, Eq, Structural)]
pub enum RecordAction {
    Keep,
    Create,
    Update,
}

/// The project that materialised a record.
pub open spec fn owner_of(annotations: Map<Seq<char>, String>, key: Seq<char>) -> Option<Seq<char>> {
    if annotations.dom().contains(key) {
        Some(annotations[key]@)
    } else {
        None
    }
}

/// Why a record cannot be materialised: another project, or somebody else,
/// has it.
pub open spec fn record_problem(
    kind: Seq<char>,
    project: Seq<char>,
    owner_key: Seq<char>,
    name: Seq<char>,
    desired: DesiredRecord,
    current: Option<CurrentRecord>,
) -> Option<Seq<char>> {
    match desired.problem {
        Some(problem) => Some(problem@),
        None => match current {
            None => None,
            Some(current) => match owner_of(current.annotations@, owner_key) {
                Some(owner) => if owner == project {
                    None
                } else {
                    Some(kind + " `"@ + name + "` is materialized by project `"@ + owner + "`"@)
                },
                None => Some(kind + " `"@ + name + "` already exists and is not materialized by a project"@),
            },
        },
    }
}

/// What is done with a record that can be materialised.
pub open spec fn record_action(desired: DesiredRecord, current: Option<CurrentRecord>) -> RecordAction {
    match current {
        None => RecordAction::Create,
        Some(current) => if current.same_spec && text_map(current.annotations@) == text_map(desired.annotations@) {
            RecordAction::Keep
        } else {
            RecordAction::Update
        },
    }
}

/// What is done with the records, in order, up to the first that cannot be
/// materialised.
#[derive(Debug, PartialEq, Eq)]
pub struct RecordPlan {
    pub actions: Vec<RecordAction>,
    pub refused: Option<String>,
}

/// The record of a name as it is, where there is one.
pub open spec fn record_at(current: Map<Seq<char>, CurrentRecord>, name: Seq<char>) -> Option<CurrentRecord> {
    if current.dom().contains(name) {
        Some(current[name])
    } else {
        None
    }
}

/// `r` is what is done with the records of some names, one after the other.
pub open spec fn records_planned(
    r: RecordPlan,
    kind: Seq<char>,
    project: Seq<char>,
    owner_key: Seq<char>,
    names: Seq<Seq<char>>,
    desired: Map<Seq<char>, DesiredRecord>,
    current: Map<Seq<char>, CurrentRecord>,
) -> bool {
    let problem = |i: int|
        record_problem(kind, project, owner_key, names[i], desired[names[i]], record_at(current, names[i]));
    let n = r.actions@.len() as int;
    &&& n <= names.len()
    &&& forall|i: int|
        0 <= i < n ==> problem(i) is None && #[trigger] r.actions@[i] == record_action(
            desired[names[i]],
            record_at(current, names[i]),
        )
    &&& match r.refused {
        None => n == names.len(),
        Some(e) => n < names.len() && problem(n) == Some(e@),
    }
}

/// Plans what is done with the records of a kind, by name.
pub fn reconcile_records(
    kind: &str,
    project: &str,
    owner_key: &str,
    desired: &OrderedMap<DesiredRecord>,
    current: &OrderedMap<CurrentRecord>,
) -> (r: RecordPlan)
    ensures
        strictly_sorted(desired.keys()),
        records_planned(r, kind@, project@, owner_key@, desired.keys(), desired@, current@),
{
    let mut actions: Vec<RecordAction> = Vec::new();
    let mut i: usize = 0;
    let n: usize = desired.len();
    let ghost names = desired.keys();
    while i < n
        invariant
            i <= n,
            n == names.len(),
            names == desired.keys(),
            strictly_sorted(names),
            actions@.len() == i,
            forall|k: int|
                0 <= k < i ==> record_problem(
                    kind@,
                    project@,
                    owner_key@,
                    names[k],
                    desired@[names[k]],
                    record_at(current@, names[k]),
                ) is None && #[trigger] actions@[k] == record_action(desired@[names[k]], record_at(current@, names[k])),
        decreases n - i,
    {
        let name = desired.key(i).as_str();
        let want = desired.value(i);
        match &want.problem {
            Some(problem) => {
                return RecordPlan { actions, refused: Some(problem.clone()) };
            },
            None => {},
        }
        match current.get(name) {
            None => {
                actions.push(RecordAction::Create);
            },
            Some(have) => {
                match have.annotations.get(owner_key) {
                    Some(owner) => {
                        if !str_eq(owner.as_str(), project) {
                            let e = concat6(kind, " `", name, "` is materialized by project `", owner.as_str(), "`");
                            return RecordPlan { actions, refused: Some(e) };
                        }
                    },
                    None => {
                        let e = crate::text::concat4(
                            kind,
                            " `",
                            name,
                            "` already exists and is not materialized by a project",
                        );
                        return RecordPlan { actions, refused: Some(e) };
                    },
                }
                if have.same_spec && same_texts(&have.annotations, &want.annotations) {
                    actions.push(RecordAction::Keep);
                } else {
                    actions.push(RecordAction::Update);
                }
            },
        }
        i = i + 1;
    }
    RecordPlan { actions, refused: None }
}

/// Materialising what is there changes nothing: once every record is as it
/// should be, all are kept.
pub proof fn law_materialized_records_are_kept(
    kind: Seq<char>,
    project: Seq<char>,
    owner_key: Seq<char>,
    name: Seq<char>,
    desired: DesiredRecord,
    current: CurrentRecord,
)
    requires
        desired.problem is None,
        current.same_spec,
        text_map(current.annotations@) == text_map(desired.annotations@),
        owner_of(desired.annotations@, owner_key) == Some(project),
    ensures
        record_problem(kind, project, owner_key, name, desired, Some(current)) is None,
        record_action(desired, Some(current)) == RecordAction::Keep,
{
    let a = current.annotations@;
    let b = desired.annotations@;
    assert(text_map(b).dom().contains(owner_key));
    assert(text_map(a).dom().contains(owner_key));
    assert(a[owner_key]@ == text_map(a)[owner_key]);
    assert(b[owner_key]@ == text_map(b)[owner_key]);
}

/// The records that changed.
pub open spec fn changed(kind: Seq<char>, names: Seq<Seq<char>>, actions: Seq<RecordAction>) -> Seq<Seq<char>>
    decreases actions.len(),
{
    if actions.len() == 0 {
        Seq::empty()
    } else {
        let before = changed(kind, names, actions.drop_last());
        if actions.last() == RecordAction::Keep {
            before
        } else {
            before.push(kind + "/"@ + names[actions.len() - 1])
        }
    }
}

pub fn changed_records(kind: &str, desired: &OrderedMap<DesiredRecord>, actions: &Vec<RecordAction>) -> (r: Vec<String>)
    requires
        actions@.len() <= desired.keys().len(),
    ensures
        strs(r@) == changed(kind@, desired.keys(), actions@),
{
    let mut r: Vec<String> = Vec::new();
    let mut i: usize = 0;
    let ghost names = desired.keys();
    assert(strs(r@) =~= changed(kind@, names, actions@.take(0)));
    while i < actions.len()
        invariant
            i <= actions@.len() <= names.len(),
            names == desired.keys(),
            strs(r@) == changed(kind@, names, actions@.take(i as int)),
        decreases actions.len() - i,
    {
        assert(actions@.take(i + 1).drop_last() =~= actions@.take(i as int));
        assert(actions@.take(i + 1).last() == actions@[i as int]);
        if actions[i] != RecordAction::Keep {
            let ghost was = strs(r@);
            let line = concat3(kind, "/", desired.key(i).as_str());
            r.push(line);
            assert(strs(r@) =~= was.push(line@));
        }
        i = i + 1;
    }
    assert(actions@.take(actions@.len() as int) =~= actions@);
    r
}

/// The names of the records that are asked for.
pub fn desired_names(desired: &OrderedMap<DesiredRecord>) -> (r: Vec<String>)
    ensures
        strs(r@) == desired.keys(),
{
    let mut names: Vec<String> = Vec::new();
    let n: usize = desired.len();
    let mut i: usize = 0;
    while i < n
        invariant
            i <= n,
            n == desired.keys().len(),
            names@.len() == i,
            forall|k: int| 0 <= k < i ==> (#[trigger] names@[k])@ == desired.keys()[k],
        decreases n - i,
    {
        names.push(desired.key(i).clone());
        i = i + 1;
    }
    assert(strs(names@) =~= desired.keys());
    names
}

/// A listed record, and the project that materialised it.
#[derive(Debug, PartialEq, Eq)]
pub struct ListedRecord {
    pub name: String,
    pub owner: Option<String>,
}

/// The records that a project materialised and no longer asks for.
pub open spec fn stale(listed: Seq<ListedRecord>, project: Seq<char>, wanted: Seq<Seq<char>>) -> Seq<Seq<char>>
    decreases listed.len(),
{
    if listed.len() == 0 {
        Seq::empty()
    } else {
        let before = stale(listed.drop_last(), project, wanted);
        if opt(listed.last().owner) == Some(project) && !holds(wanted, listed.last().name@) {
            before.push(listed.last().name@)
        } else {
            before
        }
    }
}

pub fn stale_records(listed: &Vec<ListedRecord>, project: &str, wanted: &Vec<String>) -> (r: Vec<String>)
    ensures
        strs(r@) == stale(listed@, project@, strs(wanted@)),
{
    let mut r: Vec<String> = Vec::new();
    let mut i: usize = 0;
    assert(strs(r@) =~= stale(listed@.take(0), project@, strs(wanted@)));
    while i < listed.len()
        invariant
            i <= listed@.len(),
            strs(r@) == stale(listed@.take(i as int), project@, strs(wanted@)),
        decreases listed.len() - i,
    {
        assert(listed@.take(i + 1).drop_last() =~= listed@.take(i as int));
        assert(listed@.take(i + 1).last() == listed@[i as int]);
        if opt_is(&listed[i].owner, project) && !strs_hold(wanted, listed[i].name.as_str()) {
            let ghost was = strs(r@);
            r.push(listed[i].name.clone());
            assert(strs(r@) =~= was.push(listed@[i as int].name@));
        }
        i = i + 1;
    }
    assert(listed@.take(listed@.len() as int) =~= listed@);
    r
}

/// A record that another project, or nobody, materialised is never deleted.
pub proof fn law_only_own_records_go_stale(listed: Seq<ListedRecord>, project: Seq<char>, wanted: Seq<Seq<char>>, name: Seq<char>)
    requires
        stale(listed, project, wanted).contains(name),
    ensures
        !holds(wanted, name),
        exists|i: int| 0 <= i < listed.len() && (#[trigger] listed[i]).name@ == name && opt(listed[i].owner) == Some(project),
    decreases listed.len(),
{
    if listed.len() > 0 {
        let front = listed.drop_last();
        if stale(front, project, wanted).contains(name) {
            law_only_own_records_go_stale(front, project, wanted, name);
            let i = choose|i: int|
                0 <= i < front.len() && (#[trigger] front[i]).name@ == name && opt(front[i].owner) == Some(project);
            assert(listed[i].name@ == name);
        } else {
            let all = stale(listed, project, wanted);
            let k = choose|k: int| 0 <= k < all.len() && all[k] == name;
            assert(listed[listed.len() - 1].name@ == name) by {
                if k < stale(front, project, wanted).len() {
                    assert(stale(front, project, wanted)[k] == name);
                }
            }
        }
    }
}

/// What keeps a standing convoy from the workflow it asks for. `found` says
/// whether the template has an exit.
pub open spec fn workflow_problem(
    path: Seq<char>,
    name: Seq<char>,
    workflow: Seq<char>,
    found: Result<bool, String>,
) -> Option<Seq<char>> {
    match found {
        Err(e) => Some(path + " ensure `"@ + name + "` references workflow template "@ + workflow + ": "@ + e@),
        Ok(true) => Some(
            path + " ensure `"@ + name + "` references workflow template "@ + workflow + " with an exit declaration"@,
        ),
        Ok(false) => None,
    }
}

/// A standing convoy runs on a workflow that has no exit.
pub fn ensure_workflow_problem(path: &str, name: &str, workflow_ref: &str, found: &Result<bool, String>) -> (r: Option<String>)
    ensures
        opt(r) == workflow_problem(path@, name@, workflow_ref@, *found),
{
    match found {
        Err(e) => Some(
            concat7(path, " ensure `", name, "` references workflow template ", workflow_ref, ": ", e.as_str()),
        ),
        Ok(exits) => {
            if *exits {
                Some(
                    concat6(
                        path,
                        " ensure `",
                        name,
                        "` references workflow template ",
                        workflow_ref,
                        " with an exit declaration",
                    ),
                )
            } else {
                None
            }
        },
    }
}

/// The commands that were collected for a repository, by name.
pub open spec fn commands_for(commands: Seq<CommandEntry>, repository: Seq<char>) -> Map<Seq<char>, Seq<char>>
    decreases commands.len(),
{
    if commands.len() == 0 {
        Map::empty()
    } else {
        let before = commands_for(commands.drop_last(), repository);
        if commands.last().repository@ == repository {
            before.insert(commands.last().name@, commands.last().command@)
        } else {
            before
        }
    }
}

/// Where the commands of a repository come from, in order.
pub open spec fn sources_for(commands: Seq<CommandEntry>, repository: Seq<char>) -> Seq<SourceView>
    decreases commands.len(),
{
    if commands.len() == 0 {
        Seq::empty()
    } else {
        let before = sources_for(commands.drop_last(), repository);
        if commands.last().repository@ == repository {
            before.push(commands.last().source@)
        } else {
            before
        }
    }
}

/// Objects of texts as a JSON list.
pub uninterp spec fn records_json(records: Seq<Seq<(Seq<char>, Seq<char>)>>) -> Seq<char>;

/// The members of an object, by value.
pub open spec fn members(record: Seq<(String, String)>) -> Seq<(Seq<char>, Seq<char>)> {
    Seq::new(record.len(), |i: int| (record[i].0@, record[i].1@))
}

pub open spec fn members_of(records: Seq<Vec<(String, String)>>) -> Seq<Seq<(Seq<char>, Seq<char>)>> {
    Seq::new(records.len(), |i: int| members(records[i]@))
}

/// `serde_json::to_string` of a list of maps from texts to texts: a function
/// of the names and the texts alone.
#[verifier::external_body]
fn write_records(records: &Vec<Vec<(String, String)>>) -> (r: String)
    ensures
        r@ == records_json(members_of(records@)),
{
    let list: Vec<std::collections::BTreeMap<&str, &str>> = records
        .iter()
        .map(|record| record.iter().map(|member| (member.0.as_str(), member.1.as_str())).collect())
        .collect();
    serde_json::to_string(&list).expect("texts serialize")
}

/// How a source is written down.
pub open spec fn source_members(source: SourceView) -> Seq<(Seq<char>, Seq<char>)> {
    seq![
        ("entryPath"@, source.path),
        ("sourceCommit"@, source.commit),
        ("sourceRepository"@, source.repository),
    ]
}

/// Where commands come from, written down.
pub open spec fn provenance_text(sources: Seq<SourceView>) -> Seq<char> {
    records_json(Seq::new(sources.len(), |i: int| source_members(sources[i])))
}

/// Where the commands of a repository come from, written down.
pub fn command_provenance(commands: &Vec<CommandEntry>, repository: &str) -> (r: Option<String>)
    ensures
        opt(r) == if sources_for(commands@, repository@).len() == 0 {
            None
        } else {
            Some(provenance_text(sources_for(commands@, repository@)))
        },
{
    let mut records: Vec<Vec<(String, String)>> = Vec::new();
    let mut i: usize = 0;
    while i < commands.len()
        invariant
            i <= commands@.len(),
            records@.len() == sources_for(commands@.take(i as int), repository@).len(),
            forall|k: int|
                0 <= k < records@.len() ==> members((#[trigger] records@[k])@) == source_members(
                    sources_for(commands@.take(i as int), repository@)[k],
                ),
        decreases commands.len() - i,
    {
        let command = &commands[i];
        assert(commands@.take(i + 1).drop_last() =~= commands@.take(i as int));
        assert(commands@.take(i + 1).last() == *command);
        if str_eq(command.repository.as_str(), repository) {
            let mut record: Vec<(String, String)> = Vec::new();
            record.push(("entryPath".to_owned(), command.source.path.clone()));
            record.push(("sourceCommit".to_owned(), command.source.commit.clone()));
            record.push(("sourceRepository".to_owned(), command.source.repository.clone()));
            assert(members(record@) =~= source_members(command.source@));
            records.push(record);
        }
        i = i + 1;
    }
    assert(commands@.take(commands@.len() as int) =~= commands@);
    if records.len() == 0 {
        return None;
    }
    let ghost sources = sources_for(commands@, repository@);
    assert(members_of(records@) =~= Seq::new(sources.len(), |i: int| source_members(sources[i])));
    Some(write_records(&records))
}

/// The commands that were collected for a repository, by name.
pub fn desired_commands(commands: &Vec<CommandEntry>, repository: &str) -> (r: OrderedMap<String>)
    ensures
        text_map(r@) == commands_for(commands@, repository@),
{
    let mut r: OrderedMap<String> = OrderedMap::new();
    let mut i: usize = 0;
    assert(text_map(r@) =~= commands_for(commands@.take(0), repository@));
    while i < commands.len()
        invariant
            i <= commands@.len(),
            text_map(r@) == commands_for(commands@.take(i as int), repository@),
        decreases commands.len() - i,
    {
        assert(commands@.take(i + 1).drop_last() =~= commands@.take(i as int));
        assert(commands@.take(i + 1).last() == commands@[i as int]);
        if str_eq(commands[i].repository.as_str(), repository) {
            put(&mut r, commands[i].name.as_str(), commands[i].command.as_str());
        }
        i = i + 1;
    }
    assert(commands@.take(commands@.len() as int) =~= commands@);
    r
}

/// The verification commands that a repository has, whose project they are,
/// and where they come from.
#[derive(Debug)]
pub struct VerificationState {
    pub commands: OrderedMap<String>,
    pub owner: Option<String>,
    pub provenance: Option<String>,
}

/// A verification state, by value.
pub struct VerificationView {
    pub commands: Map<Seq<char>, Seq<char>>,
    pub owner: Option<Seq<char>>,
    pub provenance: Option<Seq<char>>,
}

impl View for VerificationState {
    type V = VerificationView;

    open spec fn view(&self) -> VerificationView {
        VerificationView {
            commands: text_map(self.commands@),
            owner: opt(self.owner),
            provenance: opt(self.provenance),
        }
    }
}

/// What is done with the verification commands of a repository.
#[derive(Debug)]
pub enum VerificationStep {
    /// They are not this project's affair, or as they should be.
    Keep,
    Update { state: VerificationState },
    Refuse { message: String },
}

/// The verification state that a project asks for.
pub open spec fn desired_state(
    project: Seq<char>,
    commands: Map<Seq<char>, Seq<char>>,
    provenance: Option<Seq<char>>,
) -> VerificationView {
    VerificationView {
        commands,
        owner: match provenance {
            Some(_) => Some(project),
            None => None,
        },
        provenance,
    }
}

/// `step` is what is done with the verification commands of a repository. A
/// project touches only its own commands, and takes over none.
pub open spec fn verified_step(
    step: VerificationStep,
    project: Seq<char>,
    repository: Seq<char>,
    current: VerificationView,
    commands: Map<Seq<char>, Seq<char>>,
    provenance: Option<Seq<char>>,
) -> bool {
    let asked = commands.dom().len() > 0;
    if current.owner != Some(project) && current.owner is Some && asked {
        step matches VerificationStep::Refuse { message } && message@ == "Repository "@ + repository
            + " verification commands are materialized by project `"@ + current.owner->0 + "`"@
    } else if current.owner is None && asked && current.commands.dom().len() > 0 {
        step matches VerificationStep::Refuse { message } && message@ == "Repository "@ + repository
            + " already has verification commands that are not materialized by a project"@
    } else if current.owner != Some(project) && !asked {
        step is Keep
    } else if current == desired_state(project, commands, provenance) {
        step is Keep
    } else {
        step matches VerificationStep::Update { state } && state@ == desired_state(project, commands, provenance)
    }
}

proof fn lemma_map_len(m: OrderedMap<String>, n: usize)
    requires
        n == m.keys().len(),
        strictly_sorted(m.keys()),
        forall|i: int| 0 <= i < n ==> m@.dom().contains(#[trigger] m.keys()[i]),
        forall|k: Seq<char>| m@.dom().contains(k) ==> #[trigger] holds(m.keys(), k),
    ensures
        n == 0 <==> text_map(m@).dom().len() == 0,
        text_map(m@).dom().finite(),
{
    let dom = text_map(m@).dom();
    assert(dom =~= m@.dom());
    assert(m.keys().to_set() =~= dom) by {
        assert forall|k: Seq<char>| m.keys().to_set().contains(k) <==> dom.contains(k) by {
            if dom.contains(k) {
                assert(holds(m.keys(), k));
                let i = choose|i: int| 0 <= i < m.keys().len() && m.keys()[i] == k;
                assert(m.keys().contains(k));
            }
            if m.keys().contains(k) {
                let i = choose|i: int| 0 <= i < m.keys().len() && m.keys()[i] == k;
                assert(m@.dom().contains(m.keys()[i]));
            }
        }
    }
    vstd::seq_lib::seq_to_set_is_finite(m.keys());
    if n == 0 {
        assert(dom =~= Set::<Seq<char>>::empty());
    } else {
        assert(dom.contains(m.keys()[0]));
    }
}

/// Whether a map holds anything.
fn holds_any(m: &OrderedMap<String>) -> (r: bool)
    ensures
        r == (text_map(m@).dom().len() > 0),
{
    let n: usize = m.len();
    proof {
        lemma_map_len(*m, n);
    }
    n > 0
}

/// Decides over the verification commands of a code member of a project.
pub fn verification_step(
    project: &str,
    repository: &str,
    current: &VerificationState,
    commands: OrderedMap<String>,
    provenance: Option<String>,
) -> (r: VerificationStep)
    ensures
        verified_step(r, project@, repository@, current@, text_map(commands@), opt(provenance)),
{
    let asked = holds_any(&commands);
    let own = opt_is(&current.owner, project);
    if !own {
        match &current.owner {
            Some(owner) => {
                if asked {
                    return VerificationStep::Refuse {
                        message: concat5(
                            "Repository ",
                            repository,
                            " verification commands are materialized by project `",
                            owner.as_str(),
                            "`",
                        ),
                    };
                }
                return VerificationStep::Keep;
            },
            None => {
                if !asked {
                    return VerificationStep::Keep;
                }
                if holds_any(&current.commands) {
                    return VerificationStep::Refuse {
                        message: concat3(
                            "Repository ",
                            repository,
                            " already has verification commands that are not materialized by a project",
                        ),
                    };
                }
            },
        }
    }
    let ghost wanted = desired_state(project@, text_map(commands@), opt(provenance));
    let owner = match &provenance {
        Some(_) => Some(project.to_owned()),
        None => None,
    };
    if same_texts(&current.commands, &commands) && opt_eq(&current.owner, &owner) && opt_eq(
        &current.provenance,
        &provenance,
    ) {
        assert(current@ == wanted);
        return VerificationStep::Keep;
    }
    let state = VerificationState { commands, owner, provenance };
    assert(state@ == wanted);
    VerificationStep::Update { state }
}

/// No step touches commands that another project materialised.
pub proof fn law_foreign_commands_stay(
    step: VerificationStep,
    project: Seq<char>,
    repository: Seq<char>,
    current: VerificationView,
    commands: Map<Seq<char>, Seq<char>>,
    provenance: Option<Seq<char>>,
)
    requires
        verified_step(step, project, repository, current, commands, provenance),
        current.owner is Some,
        current.owner != Some(project),
    ensures
        !(step is Update),
{
}

/// A local checkout of a repository.
#[derive(Debug, PartialEq, Eq)]
pub struct LocalCheckout {
    pub path: String,
    /// Whether it has the main branch.
    pub is_main: bool,
}

/// The main checkouts.
pub open spec fn mains(checkouts: Seq<LocalCheckout>) -> Seq<int>
    decreases checkouts.len(),
{
    if checkouts.len() == 0 {
        Seq::empty()
    } else if checkouts.last().is_main {
        mains(checkouts.drop_last()).push(checkouts.len() - 1)
    } else {
        mains(checkouts.drop_last())
    }
}

/// The checkout to read from: the only one, else the only main one.
pub open spec fn checkout_choice(checkouts: Seq<LocalCheckout>) -> Option<int> {
    if checkouts.len() == 1 {
        Some(0)
    } else if mains(checkouts).len() == 1 {
        Some(mains(checkouts)[0])
    } else {
        None
    }
}

/// Which checkout to read from, where that is clear.
pub fn choose_checkout(checkouts: &Vec<LocalCheckout>) -> (r: Option<usize>)
    ensures
        match r {
            Some(i) => checkout_choice(checkouts@) == Some(i as int) && i < checkouts@.len(),
            None => checkout_choice(checkouts@) is None,
        },
{
    if checkouts.len() == 1 {
        return Some(0);
    }
    let mut found: Option<usize> = None;
    let mut many = false;
    let mut i: usize = 0;
    while i < checkouts.len()
        invariant
            i <= checkouts@.len(),
            match found {
                Some(f) => f < i && mains(checkouts@.take(i as int)).len() >= 1 && (!many ==> mains(
                    checkouts@.take(i as int),
                ) == seq![f as int]),
                None => !many && mains(checkouts@.take(i as int)).len() == 0,
            },
            many == (mains(checkouts@.take(i as int)).len() > 1),
        decreases checkouts.len() - i,
    {
        assert(checkouts@.take(i + 1).drop_last() =~= checkouts@.take(i as int));
        assert(checkouts@.take(i + 1).last() == checkouts@[i as int]);
        if checkouts[i].is_main {
            match found {
                Some(_) => {
                    many = true;
                },
                None => {
                    found = Some(i);
                    assert(mains(checkouts@.take(i + 1)) =~= seq![i as int]);
                },
            }
        }
        i = i + 1;
    }
    assert(checkouts@.take(checkouts@.len() as int) =~= checkouts@);
    if many {
        None
    } else {
        found
    }
}

/// Where the entries of an operational member are read from.
#[derive(Debug, PartialEq, Eq)]
pub enum OpsSource {
    Bootstrap,
    Checkout { path: String },
    /// The member has no checkout here. Nothing is materialised then: an empty
    /// set of entries must not be inferred from a source that is not there.
    Unavailable,
    Refused { message: String },
}

/// `r` is where the entries of a member are read from.
pub open spec fn ops_source_of(
    r: OpsSource,
    repo: Seq<char>,
    alias: Option<Seq<char>>,
    bootstrap: Seq<char>,
    checkouts: Seq<LocalCheckout>,
) -> bool {
    if repo == bootstrap {
        r is Bootstrap
    } else if checkouts.len() == 0 {
        r is Unavailable
    } else {
        match checkout_choice(checkouts) {
            Some(i) => r matches OpsSource::Checkout { path } && path@ == checkouts[i].path@,
            None => r matches OpsSource::Refused { message } && message@ == "ops member "@ + (match alias {
                Some(alias) => alias,
                None => repo,
            }) + " has multiple local checkouts; its main checkout cannot be selected unambiguously"@,
        }
    }
}

pub fn ops_member_source(
    repo: &str,
    alias: &Option<String>,
    bootstrap: &str,
    checkouts: &Vec<LocalCheckout>,
) -> (r: OpsSource)
    ensures
        ops_source_of(r, repo@, opt(*alias), bootstrap@, checkouts@),
{
    if str_eq(repo, bootstrap) {
        return OpsSource::Bootstrap;
    }
    if checkouts.len() == 0 {
        return OpsSource::Unavailable;
    }
    match choose_checkout(checkouts) {
        Some(i) => OpsSource::Checkout { path: checkouts[i].path.clone() },
        None => {
            let label = match alias {
                Some(alias) => alias.as_str(),
                None => repo,
            };
            OpsSource::Refused {
                message: concat3(
                    "ops member ",
                    label,
                    " has multiple local checkouts; its main checkout cannot be selected unambiguously",
                ),
            }
        },
    }
}

/// A record that is asked for is never deleted.
pub proof fn law_desired_records_stay(listed: Seq<ListedRecord>, project: Seq<char>, wanted: Seq<Seq<char>>, name: Seq<char>)
    requires
        holds(wanted, name),
    ensures
        !holds(stale(listed, project, wanted), name),
    decreases listed.len(),
{
    if listed.len() > 0 {
        law_desired_records_stay(listed.drop_last(), project, wanted, name);
        let before = stale(listed.drop_last(), project, wanted);
        let now = stale(listed, project, wanted);
        if holds(now, name) {
            let k = choose|k: int| 0 <= k < now.len() && now[k] == name;
            if k < before.len() {
                assert(before[k] == name);
                assert(holds(before, name));
            }
        }
    }
}

/// Whether a repository comes up earlier among the code members.
pub open spec fn met_before(code: Seq<Seq<char>>, at: int) -> bool {
    holds(code.take(at), code[at])
}

/// `step` is what is done with the commands of the code member at `at`. A
/// repository that is a member twice has its commands asked for once, at its
/// first place.
pub open spec fn member_step_decided(
    step: VerificationStep,
    project: Seq<char>,
    code: Seq<Seq<char>>,
    at: int,
    current: VerificationView,
    commands: Seq<CommandEntry>,
) -> bool {
    if met_before(code, at) {
        verified_step(step, project, code[at], current, Map::empty(), None)
    } else {
        let sources = sources_for(commands, code[at]);
        verified_step(
            step,
            project,
            code[at],
            current,
            commands_for(commands, code[at]),
            if sources.len() == 0 {
                None
            } else {
                Some(provenance_text(sources))
            },
        )
    }
}

/// Decides over the verification commands of the code member at `at`.
pub fn code_member_step(
    project: &str,
    code: &Vec<String>,
    at: usize,
    current: &VerificationState,
    commands: &Vec<CommandEntry>,
) -> (step: VerificationStep)
    requires
        at < code@.len(),
    ensures
        member_step_decided(step, project@, strs(code@), at as int, current@, commands@),
{
    let key = code[at].as_str();
    let mut i: usize = 0;
    let ghost all = strs(code@);
    assert(all[at as int] == key@);
    while i < at
        invariant
            i <= at < code@.len(),
            all == strs(code@),
            key@ == all[at as int],
            forall|k: int| 0 <= k < i ==> #[trigger] all[k] != key@,
        decreases at - i,
    {
        assert(all[i as int] == code@[i as int]@);
        if str_eq(code[i].as_str(), key) {
            assert(all.take(at as int)[i as int] == key@);
            assert(met_before(all, at as int));
            let none: OrderedMap<String> = OrderedMap::new();
            assert(text_map(none@) =~= Map::<Seq<char>, Seq<char>>::empty());
            return verification_step(project, key, current, none, None);
        }
        i = i + 1;
    }
    assert(!met_before(all, at as int)) by {
        if met_before(all, at as int) {
            let k = choose|k: int| 0 <= k < all.take(at as int).len() && all.take(at as int)[k] == key@;
            assert(all[k] == key@);
        }
    }
    let wanted = desired_commands(commands, key);
    let provenance = command_provenance(commands, key);
    verification_step(project, key, current, wanted, provenance)
}

/// Lines that name each of `names`.
pub open spec fn named(before: Seq<char>, names: Seq<Seq<char>>, after: Seq<char>) -> Seq<Seq<char>> {
    Seq::new(names.len(), |i: int| before + names[i] + after)
}

fn name_each(before: &str, names: &Vec<String>, after: &str) -> (r: Vec<String>)
    ensures
        strs(r@) == named(before@, strs(names@), after@),
{
    let mut r: Vec<String> = Vec::new();
    let mut i: usize = 0;
    while i < names.len()
        invariant
            i <= names@.len(),
            r@.len() == i,
            forall|k: int| 0 <= k < i ==> (#[trigger] r@[k])@ == before@ + names@[k]@ + after@,
        decreases names.len() - i,
    {
        r.push(concat3(before, names[i].as_str(), after));
        i = i + 1;
    }
    assert(strs(r@) =~= named(before@, strs(names@), after@));
    r
}

/// What a refresh did to the records that operational entries ask for.
#[derive(Debug)]
pub struct OperationalWork {
    /// The workflow templates that were written, as `changed_records` says.
    pub templates: Vec<String>,
    /// The names of those that were deleted.
    pub stale_templates: Vec<String>,
    pub ensures: Vec<String>,
    pub stale_ensures: Vec<String>,
    /// The repositories whose verification commands were updated.
    pub repositories: Vec<String>,
}

/// The changes of a refresh, as they came about.
pub open spec fn worked(work: OperationalWork) -> Seq<Seq<char>> {
    strs(work.templates@) + named("deleted WorkflowTemplate/"@, strs(work.stale_templates@), ""@) + strs(work.ensures@) + named(
        "deleted ConvoyEnsure/"@,
        strs(work.stale_ensures@),
        ""@,
    ) + named("Repository/"@, strs(work.repositories@), " verification commands"@)
}

fn join_lists(a: &Vec<String>, b: &Vec<String>) -> (r: Vec<String>)
    ensures
        strs(r@) == strs(a@) + strs(b@),
{
    let mut r: Vec<String> = strs_clone(a);
    let mut i: usize = 0;
    assert(strs(r@) =~= strs(a@) + strs(b@).take(0));
    while i < b.len()
        invariant
            i <= b@.len(),
            strs(r@) == strs(a@) + strs(b@).take(i as int),
        decreases b.len() - i,
    {
        let ghost was = strs(r@);
        r.push(b[i].clone());
        assert(strs(r@) =~= was.push(b@[i as int]@));
        assert(strs(a@) + strs(b@).take(i + 1) =~= was.push(b@[i as int]@));
        i = i + 1;
    }
    assert(strs(b@).take(b@.len() as int) =~= strs(b@));
    r
}

/// What a refresh reports of the records that operational entries ask for, in
/// order.
pub fn operational_changes(work: &OperationalWork) -> (r: Vec<String>)
    ensures
        strs(r@) == lex_sort(worked(*work)),
{
    let a = join_lists(&work.templates, &name_each("deleted WorkflowTemplate/", &work.stale_templates, ""));
    let b = join_lists(&a, &work.ensures);
    let c = join_lists(&b, &name_each("deleted ConvoyEnsure/", &work.stale_ensures, ""));
    let d = join_lists(&c, &name_each("Repository/", &work.repositories, " verification commands"));
    sort_strs(&d)
}

} // verus!
