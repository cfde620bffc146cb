//! What holds of addresses over all references and records: which record an
//! address means, in terms of the role and the project that it spells out.
use vstd::prelude::*;

use crate::address::{
    answering, answers, candidates, generations, lemma_picked, live_record, local_record, names_record, next_generation, parsed_address,
    picked, players, plays, record_names, resolved_indices, ConvoyAddressIdentity, ConvoyGeneration, ConvoySource,
};
use crate::model::ConvoyPhase;
use crate::ordered::{lemma_sorted_unique_exists, sorted_unique};
use crate::text::{first_at, has_char, holds, lemma_first_at, lemma_first_at_unique, opt, split_once};

verus! {

/// `reference` is `role@project`, with both parts and no second sign.
pub open spec fn spelt_out(reference: Seq<char>, role: Seq<char>, project: Seq<char>) -> bool {
    &&& reference == role + seq!['@'] + project
    &&& role.len() > 0
    &&& project.len() > 0
    &&& !role.contains('@')
    &&& !project.contains('@')
}

proof fn lemma_spelt_out(reference: Seq<char>, role: Seq<char>, project: Seq<char>)
    requires
        reference == role + seq!['@'] + project,
        !role.contains('@'),
    ensures
        has_char(reference, '@'),
        split_once(reference, '@') == Some((role, project)),
        !project.contains('@') <==> !has_char(project, '@'),
{
    let n = role.len() as int;
    assert(reference[n] == '@');
    assert forall|k: int| 0 <= k < n implies reference[k] != '@' by {
        assert(reference[k] == role[k]);
        assert(role.contains(role[k]));
    }
    lemma_first_at_unique(reference, '@', n);
    assert(reference.take(n) =~= role);
    assert(reference.skip(n + 1) =~= project);
    lemma_has_char(project);
}

proof fn lemma_has_char(s: Seq<char>)
    ensures
        s.contains('@') <==> has_char(s, '@'),
{
    lemma_first_at(s, '@');
    if has_char(s, '@') {
        assert(s[first_at(s, '@')] == '@');
    }
    if s.contains('@') {
        let k = choose|k: int| 0 <= k < s.len() && s[k] == '@';
        if first_at(s, '@') >= s.len() {
            assert(s[k] != '@');
        }
    }
}

proof fn lemma_answering(sources: Seq<ConvoySource>, role: Seq<char>, project: Option<Seq<char>>)
    ensures
        forall|k: int|
            0 <= k < answering(sources, role, project).len() ==> 0 <= #[trigger] answering(sources, role, project)[k]
                < sources.len() && answers(sources[answering(sources, role, project)[k]], role, project),
        forall|i: int|
            0 <= i < sources.len() && answers(sources[i], role, project) ==> #[trigger] answering(
                sources,
                role,
                project,
            ).contains(i),
{
    lemma_picked(sources.len() as int, |i: int| answers(sources[i], role, project));
}

/// An address that is spelt out is taken as written, whatever the project at
/// hand: it means the same record from everywhere, and that record plays the
/// role before the sign in the project behind it, has not ended, and is
/// reached at its own host.
pub proof fn law_spelt_out_addresses_are_taken_as_written(
    sources: Seq<ConvoySource>,
    reference: Seq<char>,
    role: Seq<char>,
    project: Seq<char>,
    here: Option<Seq<char>>,
    there: Option<Seq<char>>,
)
    requires
        spelt_out(reference, role, project),
    ensures
        live_record(sources, reference, here) == live_record(sources, reference, there),
        live_record(sources, reference, here) != Ok::<Option<(Seq<char>, int)>, Seq<char>>(None),
        live_record(sources, reference, here) matches Ok(Some((played, i))) ==> {
            &&& played == role
            &&& 0 <= i < sources.len()
            &&& sources[i].role@ == role
            &&& (sources[i].project_ref matches Some(p) && p@ == project)
            &&& sources[i].owner_host is Some
            &&& sources[i].phase != Some(ConvoyPhase::Landed)
            &&& sources[i].phase != Some(ConvoyPhase::Failed)
            &&& sources[i].phase != Some(ConvoyPhase::Cancelled)
            &&& sources[i].phase != Some(ConvoyPhase::Abandoned)
        },
{
    lemma_spelt_out(reference, role, project);
    lemma_answering(sources, role, Some(project));
}

/// A role that is given alone is looked up in the project at hand, and, where
/// there is none, in all of them. What is found plays the role and has not
/// ended.
pub proof fn law_bare_roles_are_of_the_project_at_hand(
    sources: Seq<ConvoySource>,
    reference: Seq<char>,
    context: Option<Seq<char>>,
)
    requires
        !reference.contains('@'),
    ensures
        live_record(sources, reference, context) matches Ok(Some((played, i))) ==> {
            &&& played == reference
            &&& 0 <= i < sources.len()
            &&& sources[i].role@ == reference
            &&& sources[i].project_ref is Some
            &&& (context matches Some(project) ==> sources[i].project_ref->0@ == project)
            &&& sources[i].owner_host is Some
            &&& sources[i].phase != Some(ConvoyPhase::Landed)
            &&& sources[i].phase != Some(ConvoyPhase::Failed)
            &&& sources[i].phase != Some(ConvoyPhase::Cancelled)
            &&& sources[i].phase != Some(ConvoyPhase::Abandoned)
        },
        live_record(sources, reference, context) == Ok::<Option<(Seq<char>, int)>, Seq<char>>(None) ==> forall|i: int|
            0 <= i < sources.len() && (#[trigger] sources[i]).role@ == reference && (context is None || (
            sources[i].project_ref is Some && sources[i].project_ref->0@ == context->0)) ==> sources[i].phase == Some(
                ConvoyPhase::Landed,
            ) || sources[i].phase == Some(ConvoyPhase::Failed) || sources[i].phase == Some(ConvoyPhase::Cancelled)
                || sources[i].phase == Some(ConvoyPhase::Abandoned),
{
    lemma_has_char(reference);
    lemma_answering(sources, reference, context);
    let found = answering(sources, reference, context);
    if found.len() == 0 {
        assert forall|i: int|
            0 <= i < sources.len() && (#[trigger] sources[i]).role@ == reference && (context is None || (
            sources[i].project_ref is Some && sources[i].project_ref->0@ == context->0)) implies sources[i].phase == Some(
            ConvoyPhase::Landed,
        ) || sources[i].phase == Some(ConvoyPhase::Failed) || sources[i].phase == Some(ConvoyPhase::Cancelled) || sources[i].phase
            == Some(ConvoyPhase::Abandoned) by {
            if answers(sources[i], reference, context) {
                assert(found.contains(i));
            }
        }
    }
}

/// The one live record that plays a role in a project is found by its address,
/// from everywhere, and by its role from within the project.
pub proof fn law_the_only_player_is_found(sources: Seq<ConvoySource>, i: int, project: Seq<char>, context: Option<Seq<char>>)
    requires
        0 <= i < sources.len(),
        sources[i].project_ref matches Some(p) && p@ == project,
        sources[i].owner_host is Some,
        sources[i].role@.len() > 0,
        project.len() > 0,
        !sources[i].role@.contains('@'),
        !project.contains('@'),
        sources[i].phase is None || sources[i].phase == Some(ConvoyPhase::Pending) || sources[i].phase == Some(
            ConvoyPhase::Active,
        ) || sources[i].phase == Some(ConvoyPhase::Interrupted) || sources[i].phase == Some(ConvoyPhase::Anchored)
            || sources[i].phase == Some(ConvoyPhase::Landing),
        forall|k: int|
            0 <= k < sources.len() && k != i && (#[trigger] sources[k]).role@ == sources[i].role@ && (sources[k].project_ref matches Some(
                p,
            ) && p@ == project) ==> sources[k].phase == Some(ConvoyPhase::Landed) || sources[k].phase == Some(
                ConvoyPhase::Failed,
            ) || sources[k].phase == Some(ConvoyPhase::Cancelled) || sources[k].phase == Some(ConvoyPhase::Abandoned),
    ensures
        live_record(sources, sources[i].role@ + seq!['@'] + project, context) == Ok::<Option<(Seq<char>, int)>, Seq<char>>(
            Some((sources[i].role@, i)),
        ),
        live_record(sources, sources[i].role@, Some(project)) == Ok::<Option<(Seq<char>, int)>, Seq<char>>(
            Some((sources[i].role@, i)),
        ),
{
    let role = sources[i].role@;
    lemma_spelt_out(role + seq!['@'] + project, role, project);
    lemma_has_char(role);
    lemma_answering(sources, role, Some(project));
    let found = answering(sources, role, Some(project));
    assert(answers(sources[i], role, Some(project)));
    assert(found.contains(i));
    assert forall|k: int| 0 <= k < found.len() implies #[trigger] found[k] == i by {
        assert(answers(sources[found[k]], role, Some(project)));
    }
    lemma_picked_once(sources.len() as int, |i: int| answers(sources[i], role, Some(project)));
    if found.len() > 1 {
        assert(found[0] < found[1]);
    }
    assert(found.len() == 1 && found[0] == i);
}

proof fn lemma_picked_once(n: int, p: spec_fn(int) -> bool)
    ensures
        forall|a: int, b: int| 0 <= a < b < picked(n, p).len() ==> #[trigger] picked(n, p)[a] < #[trigger] picked(n, p)[b],
    decreases n,
{
    if n > 0 {
        lemma_picked_once(n - 1, p);
        lemma_picked(n - 1, p);
        let before = picked(n - 1, p);
        assert forall|a: int, b: int| 0 <= a < b < picked(n, p).len() implies #[trigger] picked(n, p)[a]
            < #[trigger] picked(n, p)[b] by {
            if b < before.len() {
                assert(before[a] < before[b]);
            } else {
                assert(picked(n, p)[a] == before[a]);
            }
        }
    }
}

/// Two live records of one role in one project are never chosen between.
pub proof fn law_ambiguous_addresses_are_refused(
    sources: Seq<ConvoySource>,
    reference: Seq<char>,
    role: Seq<char>,
    project: Seq<char>,
    context: Option<Seq<char>>,
    i: int,
    k: int,
)
    requires
        spelt_out(reference, role, project) || (reference == role && !role.contains('@') && context == Some(project)),
        0 <= i < k < sources.len(),
        sources[i].role@ == role,
        sources[k].role@ == role,
        sources[i].project_ref matches Some(p) && p@ == project,
        sources[k].project_ref matches Some(p) && p@ == project,
        sources[i].phase is None || sources[i].phase == Some(ConvoyPhase::Active),
        sources[k].phase is None || sources[k].phase == Some(ConvoyPhase::Active),
    ensures
        live_record(sources, reference, context) is Err,
{
    if spelt_out(reference, role, project) {
        lemma_spelt_out(reference, role, project);
    }
    lemma_has_char(reference);
    lemma_answering(sources, role, Some(project));
    let found = answering(sources, role, Some(project));
    assert(answers(sources[i], role, Some(project)));
    assert(answers(sources[k], role, Some(project)));
    assert(found.contains(i) && found.contains(k));
    if found.len() == 1 {
        assert(found[0] == i && found[0] == k);
    }
}

/// A sign without a role before it, without a project behind it, or a second
/// one makes no address.
pub proof fn law_malformed_addresses_are_refused(
    sources: Seq<ConvoySource>,
    role: Seq<char>,
    project: Seq<char>,
    context: Option<Seq<char>>,
)
    requires
        !role.contains('@'),
        role.len() == 0 || project.len() == 0 || project.contains('@'),
    ensures
        live_record(sources, role + seq!['@'] + project, context) is Err,
{
    lemma_spelt_out(role + seq!['@'] + project, role, project);
}

/// What an address is resolved to is the records of exactly that name, or,
/// where no record has it, records that play the role before the sign, in the
/// project behind it where one is given. All of them have one name.
pub proof fn law_addresses_mean_what_they_say(ids: Seq<ConvoyAddressIdentity<'_>>, address: Seq<char>, role: Seq<char>, project: Option<Seq<char>>, k: int)
    requires
        resolved_indices(ids, address) matches Ok(found) && 0 <= k < found.len(),
        !role.contains('@'),
        match project {
            Some(project) => address == role + seq!['@'] + project,
            None => address == role,
        },
    ensures
        0 <= resolved_indices(ids, address)->Ok_0[k] < ids.len(),
        ({
            let id = ids[resolved_indices(ids, address)->Ok_0[k]];
            ||| id.record_name@ == address
            ||| {
                &&& forall|j: int| 0 <= j < ids.len() ==> (#[trigger] ids[j]).record_name@ != address
                &&& (id.role matches Some(r) && r@ == role)
                &&& match project {
                    Some(project) => match id.project {
                        Some(p) => p@ == project,
                        None => project.len() == 0,
                    },
                    None => true,
                }
                &&& id.terminal ==> forall|j: int|
                    0 <= j < ids.len() && !(#[trigger] ids[j]).terminal && (ids[j].role matches Some(r) && r@ == role) ==> match project {
                        Some(project) => match ids[j].project {
                            Some(p) => p@ != project,
                            None => project.len() > 0,
                        },
                        None => false,
                    }
            }
        }),
{
    let p = names_record(ids, address);
    lemma_picked(ids.len() as int, p);
    let exact = picked(ids.len() as int, p);
    if exact.len() > 0 {
        assert(p(exact[k]));
    } else {
        assert forall|j: int| 0 <= j < ids.len() implies (#[trigger] ids[j]).record_name@ != address by {
            if p(j) {
                assert(exact.contains(j));
            }
        }
        lemma_has_char(role);
        match project {
            Some(project) => {
                lemma_spelt_out(address, role, project);
            },
            None => {},
        }
        assert(parsed_address(address) == Ok::<(Seq<char>, Option<Seq<char>>), Seq<char>>((role, project)));
        let live = |i: int| plays(ids, role, project, i) && ids[i].terminal == false;
        let over = |i: int| plays(ids, role, project, i) && ids[i].terminal == true;
        lemma_picked(ids.len() as int, live);
        lemma_picked(ids.len() as int, over);
        let found = candidates(ids, role, project);
        assert(found == resolved_indices(ids, address)->Ok_0);
        if players(ids, role, project, false).len() > 0 {
            assert(live(found[k]));
        } else {
            assert(over(found[k]));
            assert forall|j: int|
                0 <= j < ids.len() && !(#[trigger] ids[j]).terminal && (ids[j].role matches Some(r) && r@ == role) implies match project {
                Some(project) => match ids[j].project {
                    Some(p) => p@ != project,
                    None => project.len() > 0,
                },
                None => false,
            } by {
                if live(j) {
                    assert(players(ids, role, project, false).contains(j));
                }
                assert(!plays(ids, role, project, j));
                match project {
                    Some(project) => {
                        if ids[j].project is None && project.len() == 0 {
                            assert(project =~= Seq::<char>::empty());
                        }
                    },
                    None => {},
                }
            }
        }
        match project {
            Some(project) => {
                if ids[found[k]].project is None {
                    assert(project =~= Seq::<char>::empty());
                }
            },
            None => {},
        }
    }
}

/// The name that an address stands for in one store is that of a record there.
pub proof fn law_local_names_are_records(ids: Seq<ConvoyAddressIdentity<'_>>, address: Seq<char>)
    requires
        local_record(ids, address) is Ok,
    ensures
        exists|i: int| 0 <= i < ids.len() && (#[trigger] ids[i]).record_name@ == local_record(ids, address)->Ok_0,
        (exists|i: int| 0 <= i < ids.len() && (#[trigger] ids[i]).record_name@ == address) ==> local_record(ids, address)->Ok_0
            == address,
{
    let found = resolved_indices(ids, address)->Ok_0;
    let p = names_record(ids, address);
    lemma_picked(ids.len() as int, p);
    let exact = picked(ids.len() as int, p);
    if exact.len() > 0 {
        assert(p(exact[0]));
        assert(ids[found[0]].record_name@ == address);
    } else {
        assert forall|i: int| 0 <= i < ids.len() implies (#[trigger] ids[i]).record_name@ != address by {
            if p(i) {
                assert(exact.contains(i));
            }
        }
        let (role, project) = parsed_address(address)->Ok_0;
        lemma_picked(ids.len() as int, |i: int| plays(ids, role, project, i) && ids[i].terminal == false);
        lemma_picked(ids.len() as int, |i: int| plays(ids, role, project, i) && ids[i].terminal == true);
        assert(ids[found[0]].record_name@ == local_record(ids, address)->Ok_0);
    }
}

/// Two live records of different names that play a role are told apart by the
/// user, not chosen between.
pub proof fn law_ambiguous_roles_are_refused(
    ids: Seq<ConvoyAddressIdentity<'_>>,
    role: Seq<char>,
    i: int,
    k: int,
)
    requires
        0 <= i < ids.len(),
        0 <= k < ids.len(),
        role.len() > 0,
        !role.contains('@'),
        ids[i].role matches Some(r) && r@ == role,
        ids[k].role matches Some(r) && r@ == role,
        !ids[i].terminal,
        !ids[k].terminal,
        ids[i].record_name@ != ids[k].record_name@,
        forall|j: int| 0 <= j < ids.len() ==> (#[trigger] ids[j]).record_name@ != role,
    ensures
        resolved_indices(ids, role) is Err,
{
    let p = names_record(ids, role);
    lemma_picked(ids.len() as int, p);
    let exact = picked(ids.len() as int, p);
    if exact.len() > 0 {
        assert(p(exact[0]));
    }
    lemma_has_char(role);
    let live = |j: int| plays(ids, role, None, j) && ids[j].terminal == false;
    lemma_picked(ids.len() as int, live);
    assert(live(i) && live(k));
    let found = candidates(ids, role, None);
    assert(players(ids, role, None, false).contains(i));
    assert(found.contains(i) && found.contains(k));
    let a = choose|a: int| 0 <= a < found.len() && found[a] == i;
    let b = choose|b: int| 0 <= b < found.len() && found[b] == k;
    let all = record_names(ids, found);
    assert(all[a] == ids[i].record_name@ && all[b] == ids[k].record_name@);
    lemma_sorted_unique_exists(all);
    let names = sorted_unique(all);
    assert(holds(names, all[a]));
    assert(holds(names, all[b]));
    if names.len() <= 1 {
        let x = choose|x: int| 0 <= x < names.len() && #[trigger] names[x] == all[a];
        let y = choose|y: int| 0 <= y < names.len() && #[trigger] names[y] == all[b];
        assert(x == 0 && y == 0);
    }
}

/// A new generation is one above the highest that its role and project ever
/// had, and the first is the first: none is skipped and none is used again.
pub proof fn law_generations_are_numbered_in_turn(convoys: Seq<ConvoyGeneration>, project: Option<Seq<char>>, role: Seq<char>)
    requires
        next_generation(convoys, project, role) is Ok,
    ensures
        ({
            let n = next_generation(convoys, project, role)->Ok_0;
            &&& n > 0
            &&& n > 1 ==> exists|i: int|
                0 <= i < convoys.len() && (#[trigger] convoys[i]).role@ == role && opt(convoys[i].project_ref) == project
                    && (match convoys[i].labelled {
                    Some(labelled) => labelled,
                    None => convoys[i].generation,
                }) == n - 1
            &&& forall|i: int|
                0 <= i < convoys.len() && (#[trigger] convoys[i]).role@ == role && opt(convoys[i].project_ref) == project
                    ==> (match convoys[i].labelled {
                    Some(labelled) => labelled,
                    None => convoys[i].generation,
                }) < n
        }),
{
    lemma_highest(convoys, project, role);
}

proof fn lemma_highest(convoys: Seq<ConvoyGeneration>, project: Option<Seq<char>>, role: Seq<char>)
    requires
        generations(convoys, project, role) is Ok,
    ensures
        ({
            let max = generations(convoys, project, role)->Ok_0;
            &&& max > 0 ==> exists|i: int|
                0 <= i < convoys.len() && (#[trigger] convoys[i]).role@ == role && opt(convoys[i].project_ref) == project
                    && (match convoys[i].labelled {
                    Some(labelled) => labelled,
                    None => convoys[i].generation,
                }) == max
            &&& forall|i: int|
                0 <= i < convoys.len() && (#[trigger] convoys[i]).role@ == role && opt(convoys[i].project_ref) == project
                    ==> (match convoys[i].labelled {
                    Some(labelled) => labelled,
                    None => convoys[i].generation,
                }) <= max
        }),
    decreases convoys.len(),
{
    if convoys.len() > 0 {
        let front = convoys.drop_last();
        lemma_highest(front, project, role);
        let max = generations(convoys, project, role)->Ok_0;
        let before = generations(front, project, role)->Ok_0;
        if max == before && max > 0 {
            let i = choose|i: int|
                0 <= i < front.len() && (#[trigger] front[i]).role@ == role && opt(front[i].project_ref) == project && (match front[i].labelled {
                    Some(labelled) => labelled,
                    None => front[i].generation,
                }) == max;
            assert(convoys[i] == front[i]);
        } else if max > before {
            assert(convoys[convoys.len() - 1].role@ == role);
        }
        assert forall|i: int|
            0 <= i < convoys.len() && (#[trigger] convoys[i]).role@ == role && opt(convoys[i].project_ref) == project implies (
        match convoys[i].labelled {
            Some(labelled) => labelled,
            None => convoys[i].generation,
        }) <= max by {
            if i < front.len() {
                assert(front[i] == convoys[i]);
            }
        }
    }
}

/// While a convoy of the role and the project is on its way, no other is given
/// a generation.
pub proof fn law_live_roles_are_taken(convoys: Seq<ConvoyGeneration>, i: int)
    requires
        0 <= i < convoys.len(),
        convoys[i].phase is None || convoys[i].phase == Some(ConvoyPhase::Pending) || convoys[i].phase == Some(
            ConvoyPhase::Active,
        ) || convoys[i].phase == Some(ConvoyPhase::Interrupted) || convoys[i].phase == Some(ConvoyPhase::Anchored)
            || convoys[i].phase == Some(ConvoyPhase::Landing),
    ensures
        next_generation(convoys, opt(convoys[i].project_ref), convoys[i].role@) is Err,
{
    if next_generation(convoys, opt(convoys[i].project_ref), convoys[i].role@) is Ok {
        crate::address::law_generations_grow(convoys, opt(convoys[i].project_ref), convoys[i].role@, i);
    }
}

/// A role and a project whose convoys have all landed, failed, been cancelled
/// or been abandoned is free for another, as long as there are numbers left.
pub proof fn law_ended_roles_are_free(convoys: Seq<ConvoyGeneration>, project: Option<Seq<char>>, role: Seq<char>)
    requires
        forall|i: int|
            0 <= i < convoys.len() && (#[trigger] convoys[i]).role@ == role && opt(convoys[i].project_ref) == project
                ==> (convoys[i].phase == Some(ConvoyPhase::Landed) || convoys[i].phase == Some(ConvoyPhase::Failed)
                || convoys[i].phase == Some(ConvoyPhase::Cancelled) || convoys[i].phase == Some(ConvoyPhase::Abandoned))
                && convoys[i].generation < u64::MAX && (convoys[i].labelled matches Some(n) ==> n < u64::MAX),
    ensures
        next_generation(convoys, project, role) is Ok,
{
    lemma_free(convoys, project, role);
}

proof fn lemma_free(convoys: Seq<ConvoyGeneration>, project: Option<Seq<char>>, role: Seq<char>)
    requires
        forall|i: int|
            0 <= i < convoys.len() && (#[trigger] convoys[i]).role@ == role && opt(convoys[i].project_ref) == project
                ==> (convoys[i].phase == Some(ConvoyPhase::Landed) || convoys[i].phase == Some(ConvoyPhase::Failed)
                || convoys[i].phase == Some(ConvoyPhase::Cancelled) || convoys[i].phase == Some(ConvoyPhase::Abandoned))
                && convoys[i].generation < u64::MAX && (convoys[i].labelled matches Some(n) ==> n < u64::MAX),
    ensures
        generations(convoys, project, role) matches Ok(max) && max < u64::MAX,
    decreases convoys.len(),
{
    if convoys.len() > 0 {
        let front = convoys.drop_last();
        assert forall|i: int|
            0 <= i < front.len() && (#[trigger] front[i]).role@ == role && opt(front[i].project_ref) == project implies (
        front[i].phase == Some(ConvoyPhase::Landed) || front[i].phase == Some(ConvoyPhase::Failed) || front[i].phase == Some(
            ConvoyPhase::Cancelled,
        ) || front[i].phase == Some(ConvoyPhase::Abandoned)) && front[i].generation < u64::MAX && (front[i].labelled matches Some(
            n,
        ) ==> n < u64::MAX) by {
            assert(front[i] == convoys[i]);
        }
        lemma_free(front, project, role);
        assert(convoys[convoys.len() - 1] == convoys.last());
    }
}

} // verus!
