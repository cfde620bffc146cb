//! Reading what the operational members of a project ask for.
use vstd::prelude::*;

use crate::materialize::{ops_member_source, ops_source_of, put, LocalCheckout, OpsSource};
use crate::operations::{
    collect_files, lemma_sources_fail_early, with_sources, Collected, CollectedView, OperationalSource, SourceFiles,
};
use crate::ordered::{text_map, OrderedMap};
use crate::text::{opt, str_eq, strs};

verus! {

/// A member of a project that is refreshed.
#[derive(Debug)]
pub struct RefreshMember {
    pub repo: String,
    pub alias: Option<String>,
    pub code: bool,
}

/// What the aliases of the members stand for; the later of two counts.
pub open spec fn member_aliases(members: Seq<RefreshMember>) -> Map<Seq<char>, Seq<char>>
    decreases members.len(),
{
    if members.len() == 0 {
        Map::empty()
    } else {
        let before = member_aliases(members.drop_last());
        match members.last().alias {
            Some(alias) => before.insert(alias@, members.last().repo@),
            None => before,
        }
    }
}

/// The repositories that hold code.
pub open spec fn code_members(members: Seq<RefreshMember>) -> Seq<Seq<char>>
    decreases members.len(),
{
    if members.len() == 0 {
        Seq::empty()
    } else if members.last().code {
        code_members(members.drop_last()).push(members.last().repo@)
    } else {
        code_members(members.drop_last())
    }
}

fn aliases_of(members: &Vec<RefreshMember>) -> (r: OrderedMap<String>)
    ensures
        text_map(r@) == member_aliases(members@),
{
    let mut r: OrderedMap<String> = OrderedMap::new();
    let mut i: usize = 0;
    assert(text_map(r@) =~= member_aliases(members@.take(0)));
    while i < members.len()
        invariant
            i <= members@.len(),
            text_map(r@) == member_aliases(members@.take(i as int)),
        decreases members.len() - i,
    {
        assert(members@.take(i + 1).drop_last() =~= members@.take(i as int));
        assert(members@.take(i + 1).last() == members@[i as int]);
        match &members[i].alias {
            Some(alias) => {
                put(&mut r, alias.as_str(), members[i].repo.as_str());
            },
            None => {},
        }
        i = i + 1;
    }
    assert(members@.take(members@.len() as int) =~= members@);
    r
}

fn code_of(members: &Vec<RefreshMember>) -> (r: Vec<String>)
    ensures
        strs(r@) == code_members(members@),
{
    let mut r: Vec<String> = Vec::new();
    let mut i: usize = 0;
    assert(strs(r@) =~= code_members(members@.take(0)));
    while i < members.len()
        invariant
            i <= members@.len(),
            strs(r@) == code_members(members@.take(i as int)),
        decreases members.len() - i,
    {
        assert(members@.take(i + 1).drop_last() =~= members@.take(i as int));
        assert(members@.take(i + 1).last() == members@[i as int]);
        if members[i].code {
            let ghost was = strs(r@);
            r.push(members[i].repo.clone());
            assert(strs(r@) =~= was.push(members@[i as int].repo@));
        }
        i = i + 1;
    }
    assert(members@.take(members@.len() as int) =~= members@);
    r
}

/// An operational member, and what is known so far of its entries.
#[derive(Debug)]
pub struct OpsReading {
    pub repo: String,
    pub alias: Option<String>,
    /// Its checkouts on this host, by path.
    pub checkouts: Vec<LocalCheckout>,
    pub entries: Option<Result<OperationalSource, String>>,
}

/// What is done next about the entries of a project.
#[derive(Debug)]
pub enum GatherStep {
    /// The entries of this member are read from there.
    Read { member: usize, source: OpsSource },
    Refuse { message: String },
    /// Some member cannot be read here. Nothing is materialised then: what it
    /// asked for before must not be taken for gone.
    Nothing,
    Collected { collected: Collected },
}

/// Where the entries of a member are read from.
pub open spec fn source_of(m: OpsReading, bootstrap: Seq<char>, source: OpsSource) -> bool {
    ops_source_of(source, m.repo@, opt(m.alias), bootstrap, m.checkouts@)
}

/// Whether the member has no checkout here.
pub open spec fn out_of_reach(m: OpsReading, bootstrap: Seq<char>) -> bool {
    m.repo@ != bootstrap && m.checkouts@.len() == 0
}

/// Whether no more has to be found out about a member.
pub open spec fn settled(m: OpsReading, bootstrap: Seq<char>) -> bool {
    out_of_reach(m, bootstrap) || ((m.entries matches Some(Ok(_))) && !refuses(m, bootstrap))
}

/// Whether the checkout of a member cannot be told.
pub open spec fn refuses(m: OpsReading, bootstrap: Seq<char>) -> bool {
    m.repo@ != bootstrap && m.checkouts@.len() > 0 && crate::materialize::checkout_choice(m.checkouts@) is None
}

/// The first member that is not settled, or the number of members.
pub open spec fn first_unsettled(ops: Seq<OpsReading>, bootstrap: Seq<char>) -> int
    decreases ops.len(),
{
    if ops.len() == 0 {
        0
    } else if !settled(ops[0], bootstrap) {
        0
    } else {
        1 + first_unsettled(ops.drop_first(), bootstrap)
    }
}

/// What a member's entries are taken for: those of the bootstrap repository
/// are taken at the commit that was inspected.
pub open spec fn taken_as(m: OpsReading, bootstrap: Seq<char>, commit: Seq<char>) -> SourceFiles {
    let read = m.entries->0->Ok_0;
    if m.repo@ == bootstrap {
        SourceFiles { repository: bootstrap, commit, files: read.files@ }
    } else {
        SourceFiles { repository: read.repository@, commit: read.commit@, files: read.files@ }
    }
}

/// The entries of all members.
pub open spec fn gathered(ops: Seq<OpsReading>, bootstrap: Seq<char>, commit: Seq<char>) -> Seq<SourceFiles> {
    Seq::new(ops.len(), |i: int| taken_as(ops[i], bootstrap, commit))
}

/// `step` is what the entries of all members come to.
pub open spec fn collected_from(
    step: GatherStep,
    project: Seq<char>,
    members: Seq<RefreshMember>,
    sources: Seq<SourceFiles>,
) -> bool {
    match with_sources(project, member_aliases(members), code_members(members), sources) {
        Ok(view) => step matches GatherStep::Collected { collected } && collected@ == view,
        Err(e) => step matches GatherStep::Refuse { message } && message@ == e,
    }
}

/// `step` is what is done next about the entries of a project.
pub open spec fn gather_decided(
    step: GatherStep,
    project: Seq<char>,
    members: Seq<RefreshMember>,
    ops: Seq<OpsReading>,
    bootstrap: Seq<char>,
    commit: Seq<char>,
) -> bool {
    let at = first_unsettled(ops, bootstrap);
    if at < ops.len() {
        let m = ops[at];
        if refuses(m, bootstrap) {
            exists|source: OpsSource| #[trigger] source_of(m, bootstrap, source) && (source matches OpsSource::Refused { message: e }
                && step matches GatherStep::Refuse { message } && message@ == e@)
        } else {
            match m.entries {
                None => step matches GatherStep::Read { member, source } && member == at && source_of(m, bootstrap, source),
                Some(Err(e)) => step matches GatherStep::Refuse { message } && message@ == e@,
                Some(Ok(_)) => false,
            }
        }
    } else if exists|i: int| 0 <= i < ops.len() && out_of_reach(#[trigger] ops[i], bootstrap) {
        step is Nothing
    } else {
        collected_from(step, project, members, gathered(ops, bootstrap, commit))
    }
}

proof fn lemma_first_unsettled(ops: Seq<OpsReading>, bootstrap: Seq<char>, at: int)
    requires
        0 <= at <= ops.len(),
        at < ops.len() ==> !settled(ops[at], bootstrap),
        forall|i: int| 0 <= i < at ==> settled(#[trigger] ops[i], bootstrap),
    ensures
        first_unsettled(ops, bootstrap) == at,
    decreases ops.len(),
{
    if at > 0 {
        let rest = ops.drop_first();
        assert(settled(ops[0], bootstrap));
        assert forall|i: int| 0 <= i < at - 1 implies settled(#[trigger] rest[i], bootstrap) by {
            assert(rest[i] == ops[i + 1]);
        }
        if at < ops.len() {
            assert(rest[at - 1] == ops[at]);
        }
        lemma_first_unsettled(rest, bootstrap, at - 1);
    }
}

/// What the entries of all members ask for.
fn collect_all(
    project: &str,
    members: &Vec<RefreshMember>,
    ops: &Vec<OpsReading>,
    bootstrap: &str,
    commit: &str,
) -> (step: GatherStep)
    requires
        forall|i: int| 0 <= i < ops@.len() ==> ((#[trigger] ops@[i]).entries matches Some(Ok(_))),
    ensures
        collected_from(step, project@, members@, gathered(ops@, bootstrap@, commit@)),
{
    let aliases = aliases_of(members);
    let code = code_of(members);
    let ghost known = member_aliases(members@);
    let ghost places = code_members(members@);
    let ghost sources = gathered(ops@, bootstrap@, commit@);
    let mut c = Collected { workflows: OrderedMap::new(), commands: Vec::new(), ensures: OrderedMap::new() };
    assert(c@.workflows =~= Map::empty());
    assert(c@.commands =~= Seq::empty());
    assert(c@.ensures =~= Map::empty());
    let mut i: usize = 0;
    while i < ops.len()
        invariant
            i <= ops@.len(),
            known == text_map(aliases@),
            places == strs(code@),
            sources == gathered(ops@, bootstrap@, commit@),
            known == member_aliases(members@),
            places == code_members(members@),
            forall|k: int| 0 <= k < ops@.len() ==> ((#[trigger] ops@[k]).entries matches Some(Ok(_))),
            with_sources(project@, known, places, sources.take(i as int)) == Ok::<CollectedView, Seq<char>>(c@),
        decreases ops.len() - i,
    {
        let m = &ops[i];
        assert(ops@[i as int].entries matches Some(Ok(_)));
        assert(sources.take(i + 1).drop_last() =~= sources.take(i as int));
        assert(sources.take(i + 1).last() == taken_as(ops@[i as int], bootstrap@, commit@));
        match &m.entries {
            Some(Ok(read)) => {
                let own = str_eq(m.repo.as_str(), bootstrap);
                let repository = if own {
                    bootstrap
                } else {
                    read.repository.as_str()
                };
                let at = if own {
                    commit
                } else {
                    read.commit.as_str()
                };
                match collect_files(c, project, &aliases, &code, repository, at, &read.files) {
                    Err(message) => {
                        proof {
                            lemma_sources_fail_early(project@, known, places, sources, i + 1);
                        }
                        return GatherStep::Refuse { message };
                    },
                    Ok(after) => {
                        c = after;
                    },
                }
            },
            _ => {},
        }
        i = i + 1;
    }
    assert(sources.take(sources.len() as int) =~= sources);
    GatherStep::Collected { collected: c }
}

/// Decides what is done next about the entries of a project, until all that
/// its operational members ask for is known.
pub fn gather_operational_entries(
    project: &str,
    members: &Vec<RefreshMember>,
    ops: &Vec<OpsReading>,
    bootstrap: &str,
    bootstrap_commit: &str,
) -> (step: GatherStep)
    ensures
        gather_decided(step, project@, members@, ops@, bootstrap@, bootstrap_commit@),
{
    let mut missing = false;
    let mut i: usize = 0;
    while i < ops.len()
        invariant
            i <= ops@.len(),
            forall|k: int| 0 <= k < i ==> settled(#[trigger] ops@[k], bootstrap@),
            missing == exists|k: int| 0 <= k < i && out_of_reach(#[trigger] ops@[k], bootstrap@),
        decreases ops.len() - i,
    {
        let m = &ops[i];
        let source = ops_member_source(m.repo.as_str(), &m.alias, bootstrap, &m.checkouts);
        assert(source_of(*m, bootstrap@, source));
        match source {
            OpsSource::Unavailable => {
                assert(out_of_reach(ops@[i as int], bootstrap@));
                missing = true;
            },
            OpsSource::Refused { message } => {
                proof {
                    assert(refuses(ops@[i as int], bootstrap@));
                    lemma_first_unsettled(ops@, bootstrap@, i as int);
                }
                return GatherStep::Refuse { message };
            },
            _ => {
                assert(!out_of_reach(ops@[i as int], bootstrap@));
                match &m.entries {
                    None => {
                        proof {
                            lemma_first_unsettled(ops@, bootstrap@, i as int);
                        }
                        return GatherStep::Read { member: i, source };
                    },
                    Some(Err(e)) => {
                        proof {
                            lemma_first_unsettled(ops@, bootstrap@, i as int);
                        }
                        return GatherStep::Refuse { message: e.clone() };
                    },
                    Some(Ok(_)) => {},
                }
            },
        }
        i = i + 1;
    }
    proof {
        lemma_first_unsettled(ops@, bootstrap@, ops@.len() as int);
    }
    if missing {
        return GatherStep::Nothing;
    }
    assert forall|k: int| 0 <= k < ops@.len() implies ((#[trigger] ops@[k]).entries matches Some(Ok(_))) by {
        assert(settled(ops@[k], bootstrap@));
        assert(!out_of_reach(ops@[k], bootstrap@));
    }
    collect_all(project, members, ops, bootstrap, bootstrap_commit)
}

/// Nothing is inferred from a source that is not there: as long as some member
/// cannot be read here, no set of entries is taken for complete.
pub proof fn law_missing_sources_change_nothing(
    step: GatherStep,
    project: Seq<char>,
    members: Seq<RefreshMember>,
    ops: Seq<OpsReading>,
    bootstrap: Seq<char>,
    commit: Seq<char>,
    i: int,
)
    requires
        gather_decided(step, project, members, ops, bootstrap, commit),
        0 <= i < ops.len(),
        out_of_reach(ops[i], bootstrap),
    ensures
        !(step is Collected),
{
}

} // verus!
