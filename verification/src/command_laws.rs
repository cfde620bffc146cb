//! What holds of every command that comes in, and of the terminals that are
//! told of.
use vstd::prelude::*;

use crate::commands::{comes_to, context_of, ends_under, mode_of, namespace_of, Command, CommandAction, CommandContext, CommandValue};
use crate::repos::{RegistryView, RepoSelector};
use crate::terminals::{
    attributed, deepest_root, directory_owner, lies_in, removals, upserts, FoundTerminal, OpView, OwnedRoot, TerminalView,
};
use crate::text::{holds, opt, strs};

verus! {

/// A question is not carried out as a command; what takes its time, watching
/// or working in a repository, runs on its own; everything else is done at
/// once.
pub proof fn law_long_commands_run_on_their_own(action: CommandAction)
    ensures
        mode_of(action) is Misrouted <==> action is Query || action is QueryExplainConvoy || action is QueryCrewList,
        mode_of(action) is Running <==> action is ResourceWatch || action is Checkout || action is RemoveCheckout || action is InContext
            || action is Unplaced,
{
}

/// What a command comes to is what its work came to, except that a question
/// is answered with an error.
pub proof fn law_commands_come_to_what_they_did(result: CommandValue, c: CommandContext, value: CommandValue)
    requires
        comes_to(result, c, value),
    ensures
        c.mode is Misrouted ==> result is Error,
        !(c.mode is Misrouted) ==> result == value,
{
}

/// Every command keeps its number and is of the mode of what it does, and is
/// run where it was sent, if it can be sent at all.
pub proof fn law_commands_are_run_where_they_are_for(
    r: Result<CommandContext, String>,
    id: u64,
    command: Command,
    local_node: Seq<char>,
    v: RegistryView,
    paths: Seq<Seq<char>>,
    detected: (Seq<char>, Seq<char>),
)
    requires
        context_of(r, id, command, local_node, v, paths, detected),
        r is Ok,
    ensures
        ({
            let c = r->Ok_0;
            let travels = command.action is ResourceWatch || command.action is Checkout || command.action is RemoveCheckout
                || command.action is InContext;
            &&& c.id == id
            &&& travels && command.node_id is Some ==> c.node_id@ == command.node_id->0@
            &&& !(travels && command.node_id is Some) ==> c.node_id@ == local_node
            &&& !(command.action is ResourceWatch) ==> c.description@ == command.description@
            &&& c.tracks_path <==> command.action is TrackRepoPath
            &&& !(command.action is Unplaced)
        }),
{
}

/// A command about a repository is told under the identity that the path is
/// tracked for, and refused for a path that is not tracked; one that tracks a
/// path is told under what was found there.
pub proof fn law_commands_are_told_under_their_repository(
    r: Result<CommandContext, String>,
    id: u64,
    command: Command,
    local_node: Seq<char>,
    v: RegistryView,
    paths: Seq<Seq<char>>,
    detected: (Seq<char>, Seq<char>),
)
    requires
        context_of(r, id, command, local_node, v, paths, detected),
    ensures
        command.action matches CommandAction::TrackRepoPath { path } ==> (r matches Ok(c) && opt(c.repo) == Some(path@) && c.identity@
            == detected),
        command.action matches CommandAction::UntrackRepo { repo: RepoSelector::Path { path } } ==> (r is Ok
            <==> v.identities.dom().contains(path@)) && (r matches Ok(c) ==> opt(c.repo) == Some(path@) && c.identity@
            == v.identities[path@]),
        command.action matches CommandAction::Refresh { repo: Some(RepoSelector::Path { path }) } ==> (r is Ok
            <==> v.identities.dom().contains(path@)) && (r matches Ok(c) ==> opt(c.repo) == Some(path@) && c.identity@
            == v.identities[path@]),
        command.action matches CommandAction::Checkout { repo: RepoSelector::Path { path } } ==> (r is Ok
            <==> v.identities.dom().contains(path@)) && (r matches Ok(c) ==> opt(c.repo) == Some(path@) && c.identity@
            == v.identities[path@]),
        command.action is InContext && command.context_repo is None ==> r is Err,
        command.action is InContext ==> (command.context_repo matches Some(RepoSelector::Path { path }) ==> (r is Ok
            <==> v.identities.dom().contains(path@)) && (r matches Ok(c) ==> opt(c.repo) == Some(path@) && c.identity@
            == v.identities[path@])),
        command.action is RemoveCheckout ==> (command.context_repo matches Some(RepoSelector::Path { path }) ==> (r matches Ok(c)
            ==> opt(c.repo) == Some(path@))),
        (command.action matches CommandAction::RemoveCheckout { resolved } && command.context_repo is None) ==> (r matches Ok(c) ==> (
        command.action->RemoveCheckout_resolved matches Ok(path) && opt(c.repo) == Some(path@) && v.identities.dom().contains(path@)
            && c.identity@ == v.identities[path@])),
        (command.action matches CommandAction::Refresh { repo } && repo is None) ==> (r matches Ok(c) && (paths.len() > 0 ==> opt(c.repo)
            == Some(paths[0]))),
        command.action is ConvoyDelete || command.action is ConvoyStart || command.action is ConvoyCreate || command.action is ProjectAdd
            || command.action is CrewComplete || command.action is ResourceApply || command.action is ResourceDelete ==> (r matches Ok(c)
            && c.repo is None),
{
}

/// The end of a command is told under the identity that it started under,
/// unless it tracked a path: that is told under what the path is tracked for
/// now.
pub proof fn law_tracking_is_told_under_what_is_tracked(c: CommandContext, v: RegistryView)
    ensures
        !c.tracks_path ==> ends_under(c, v) == c.identity@,
        c.tracks_path && c.repo is Some && v.identities.dom().contains(c.repo->0@) ==> ends_under(c, v) == v.identities[c.repo->0@],
        c.tracks_path && c.repo is Some && !v.identities.dom().contains(c.repo->0@) ==> ends_under(c, v) == c.identity@,
{
}

/// A command about a convoy goes to the namespace that it names, or else to
/// the usual one.
pub proof fn law_commands_go_to_the_namespace_they_name(action: CommandAction, usual: Seq<char>)
    ensures
        action matches CommandAction::ConvoyResume { namespace, name } ==> namespace_of(action, usual) == (if namespace is Some {
            namespace->0@
        } else {
            usual
        }),
        action matches CommandAction::ConvoyWithdrawPendingBrief { namespace, name } ==> namespace_of(action, usual) == (
        if namespace is Some {
            namespace->0@
        } else {
            usual
        }),
        action matches CommandAction::ConvoyDelete { namespace, name } ==> namespace_of(action, usual) == (if namespace is Some {
            namespace->0@
        } else {
            usual
        }),
        action matches CommandAction::ConvoyAbandon { namespace, name } ==> namespace_of(action, usual) == (if namespace is Some {
            namespace->0@
        } else {
            usual
        }),
        action matches CommandAction::ConvoyStart { namespace } ==> namespace_of(action, usual) == (if namespace is Some {
            namespace->0@
        } else {
            usual
        }),
        action is ConvoyCreate || action is ProjectAdd || action is ProjectApply || action is WorkflowTemplateApply ==> namespace_of(
            action,
            usual,
        ) == usual,
{
}

proof fn lemma_upserts(keys: Seq<Seq<char>>, before: Map<Seq<char>, TerminalView>, now: Map<Seq<char>, TerminalView>, i: int)
    requires
        0 <= i < upserts(keys, before, now).len(),
    ensures
        ({
            let change = upserts(keys, before, now)[i];
            &&& holds(keys, change.0)
            &&& !(change.1 is Removed)
            &&& change.1 is Added <==> !before.dom().contains(change.0)
            &&& (change.1 matches OpView::Added(t) ==> t == now[change.0])
            &&& (change.1 matches OpView::Updated(t) ==> t == now[change.0] && t != before[change.0])
        }),
    decreases keys.len(),
{
    let front = keys.drop_last();
    let rest = upserts(front, before, now);
    if i < rest.len() {
        lemma_upserts(front, before, now, i);
        let key = rest[i].0;
        let k = choose|k: int| 0 <= k < front.len() && #[trigger] front[k] == key;
        assert(keys[k] == key);
    } else {
        assert(keys[keys.len() - 1] == keys.last());
    }
}

proof fn lemma_removals(keys: Seq<Seq<char>>, now: Map<Seq<char>, TerminalView>, i: int)
    requires
        0 <= i < removals(keys, now).len(),
    ensures
        removals(keys, now)[i].1 is Removed,
        holds(keys, removals(keys, now)[i].0),
        !now.dom().contains(removals(keys, now)[i].0),
    decreases keys.len(),
{
    let front = keys.drop_last();
    let rest = removals(front, now);
    if i < rest.len() {
        lemma_removals(front, now, i);
        let key = rest[i].0;
        let k = choose|k: int| 0 <= k < front.len() && #[trigger] front[k] == key;
        assert(keys[k] == key);
    } else {
        assert(keys[keys.len() - 1] == keys.last());
    }
}

/// A terminal is told of as added when it was not known, as updated when it
/// was and is different, and as removed when it is gone; as it is now.
pub proof fn law_changes_say_what_changed(
    now_keys: Seq<Seq<char>>,
    before_keys: Seq<Seq<char>>,
    before: Map<Seq<char>, TerminalView>,
    now: Map<Seq<char>, TerminalView>,
    i: int,
)
    requires
        0 <= i < (upserts(now_keys, before, now) + removals(before_keys, now)).len(),
    ensures
        ({
            let change = (upserts(now_keys, before, now) + removals(before_keys, now))[i];
            match change.1 {
                OpView::Added(t) => !before.dom().contains(change.0) && holds(now_keys, change.0) && t == now[change.0],
                OpView::Updated(t) => before.dom().contains(change.0) && holds(now_keys, change.0) && t == now[change.0] && t
                    != before[change.0],
                OpView::Removed => !now.dom().contains(change.0) && holds(before_keys, change.0),
            }
        }),
{
    let ups = upserts(now_keys, before, now);
    if i < ups.len() {
        lemma_upserts(now_keys, before, now, i);
    } else {
        lemma_removals(before_keys, now, i - ups.len());
    }
}

/// Whether a directory lies in a root: it begins with all the parts of it.
pub open spec fn inside(directory: Seq<String>, root: Seq<String>) -> bool {
    root.len() <= directory.len() && forall|k: int| 0 <= k < root.len() ==> (#[trigger] root[k])@ == directory[k]@
}

proof fn lemma_inside(directory: Seq<String>, root: Seq<String>)
    ensures
        lies_in(strs(directory), strs(root)) <==> inside(directory, root),
{
    let d = strs(directory);
    let r = strs(root);
    if lies_in(d, r) {
        assert forall|k: int| 0 <= k < root.len() implies (#[trigger] root[k])@ == directory[k]@ by {
            assert(d.take(r.len() as int)[k] == r[k]);
        }
    }
    if inside(directory, root) {
        assert forall|k: int| 0 <= k < r.len() implies #[trigger] d.take(r.len() as int)[k] == r[k] by {
            assert(root[k]@ == directory[k]@);
        }
        assert(d.take(r.len() as int) =~= r);
    }
}

proof fn lemma_deepest(roots: Seq<OwnedRoot>, directory: Seq<String>)
    ensures
        match deepest_root(roots, strs(directory)) {
            Some(b) => 0 <= b < roots.len() && inside(directory, roots[b].parts@) && forall|i: int|
                0 <= i < roots.len() && inside(directory, (#[trigger] roots[i]).parts@) ==> roots[i].parts@.len() <= roots[b].parts@.len(),
            None => forall|i: int| 0 <= i < roots.len() ==> !inside(directory, (#[trigger] roots[i]).parts@),
        },
    decreases roots.len(),
{
    if roots.len() > 0 {
        let front = roots.drop_last();
        lemma_deepest(front, directory);
        lemma_inside(directory, roots.last().parts@);
        assert(forall|i: int| 0 <= i < front.len() ==> #[trigger] roots[i] == front[i]);
        assert(roots[roots.len() - 1] == roots.last());
        assert(strs(roots.last().parts@).len() == roots.last().parts@.len());
    }
}

/// A directory belongs to the repository whose place it lies in, the deepest
/// of them where it lies in several, and to none where it lies in no place of
/// any.
pub proof fn law_directories_belong_to_the_deepest_place(roots: Seq<OwnedRoot>, directory: Seq<String>)
    ensures
        match directory_owner(roots, strs(directory)) {
            Some(owner) => exists|b: int|
                0 <= b < roots.len() && (#[trigger] roots[b]).repo == owner && inside(directory, roots[b].parts@) && forall|i: int|
                    0 <= i < roots.len() && inside(directory, (#[trigger] roots[i]).parts@) ==> roots[i].parts@.len()
                        <= roots[b].parts@.len(),
            None => forall|i: int| 0 <= i < roots.len() ==> !inside(directory, (#[trigger] roots[i]).parts@),
        },
{
    lemma_deepest(roots, directory);
    if deepest_root(roots, strs(directory)) is Some {
        let b = deepest_root(roots, strs(directory))->0;
        assert(roots[b].repo == roots[b].repo);
    }
}

/// A repository shows exactly the terminals whose directory belongs to it, and
/// each as it was found last.
pub proof fn law_repositories_show_their_terminals(found: Seq<FoundTerminal>, roots: Seq<OwnedRoot>, repo: int, id: Seq<char>)
    ensures
        attributed(found, roots, repo).dom().contains(id) <==> exists|i: int|
            0 <= i < found.len() && (#[trigger] found[i]).id@ == id && (directory_owner(roots, strs(found[i].directory@)) matches Some(
                owner,
            ) && owner == repo),
        attributed(found, roots, repo).dom().contains(id) ==> exists|i: int|
            0 <= i < found.len() && (#[trigger] found[i]).id@ == id && attributed(found, roots, repo)[id] == found[i].terminal@,
    decreases found.len(),
{
    if found.len() > 0 {
        let front = found.drop_last();
        law_repositories_show_their_terminals(front, roots, repo, id);
        let n = found.len() - 1;
        assert(found[n] == found.last());
        if attributed(front, roots, repo).dom().contains(id) {
            let i = choose|i: int|
                0 <= i < front.len() && (#[trigger] front[i]).id@ == id && (directory_owner(roots, strs(front[i].directory@)) matches Some(
                    owner,
                ) && owner == repo);
            assert(found[i] == front[i]);
            let k = choose|k: int|
                0 <= k < front.len() && (#[trigger] front[k]).id@ == id && attributed(front, roots, repo)[id] == front[k].terminal@;
            assert(found[k] == front[k]);
        }
        if exists|i: int|
            0 <= i < found.len() && (#[trigger] found[i]).id@ == id && (directory_owner(roots, strs(found[i].directory@)) matches Some(
                owner,
            ) && owner == repo) {
            let i = choose|i: int|
                0 <= i < found.len() && (#[trigger] found[i]).id@ == id && (directory_owner(roots, strs(found[i].directory@)) matches Some(
                    owner,
                ) && owner == repo);
            if i < n {
                assert(front[i] == found[i]);
            }
        }
    }
}

} // verus!
