//! Attach targets: which session, replica or checkout a reference means.
use std::sync::Arc;

use vstd::prelude::*;

use crate::address::{address_text, convoy_address, ints, picked};
use crate::fleet::{session_convoy, session_crew, FleetListRow, FleetStaleness};
use crate::model::{session_phase, share, ConvoyPhase, CrewLabels, SessionPhase, TerminalSession};
use crate::ordered::{text_map, sort_dedup, sorted_unique, strictly_sorted, OrderedMap};
use crate::replicas::row_with_staleness;
use crate::text::{
    blank, concat2, concat3, concat4, concat5, holds, join, join_strs, lemma_strs_push, opt, opt_clone, opt_is, replace,
    rsplit_once, starts, str_blank, str_eq, str_replace, str_rsplit_once, str_starts, strs,
};

verus! {

/// The one text, where there is one.
pub open spec fn one(o: Option<Seq<char>>) -> Seq<Seq<char>> {
    match o {
        Some(s) => seq![s],
        None => Seq::empty(),
    }
}

/// `a/b`, where both are there.
pub open spec fn slash(a: Option<Seq<char>>, b: Option<Seq<char>>) -> Option<Seq<char>> {
    match (a, b) {
        (Some(a), Some(b)) => Some(a + "/"@ + b),
        _ => None,
    }
}

/// Every reference that means a session, as they are collected.
pub open spec fn session_references(name: Seq<char>, labels: CrewLabels, address: Option<Seq<char>>) -> Seq<Seq<char>> {
    let convoy = opt(labels.convoy);
    let task = opt(labels.vessel);
    let role = opt(labels.role);
    let vessel = opt(labels.vessel_ref);
    seq![name] + one(convoy) + one(address) + one(slash(address, task)) + one(slash(slash(address, task), role))
        + one(vessel) + one(slash(convoy, task)) + one(slash(slash(convoy, task), role)) + one(slash(vessel, role))
        + one(role)
}

fn push_one(v: &mut Vec<String>, o: &Option<String>)
    ensures
        strs(final(v)@) == strs(old(v)@) + one(opt(*o)),
{
    if let Some(s) = o {
        let t = s.clone();
        proof {
            lemma_strs_push(v@, t);
        }
        v.push(t);
    }
    assert(strs(v@) =~= strs(old(v)@) + one(opt(*o)));
}

fn slash_str(a: &Option<String>, b: &Option<String>) -> (r: Option<String>)
    ensures
        opt(r) == slash(opt(*a), opt(*b)),
{
    match (a, b) {
        (Some(a), Some(b)) => Some(concat3(a.as_str(), "/", b.as_str())),
        _ => None,
    }
}

/// The references that mean a session, in order and without repeats.
pub fn attach_reference_keys(session_name: &str, labels: &CrewLabels, convoy_address: &Option<String>) -> (r: Vec<String>)
    ensures
        strs(r@) == sorted_unique(session_references(session_name@, *labels, opt(*convoy_address))),
{
    let mut refs: Vec<String> = Vec::new();
    push_one(&mut refs, &Some(session_name.to_owned()));
    assert(strs(refs@) =~= seq![session_name@]);
    let at_task = slash_str(convoy_address, &labels.vessel);
    let in_convoy = slash_str(&labels.convoy, &labels.vessel);
    push_one(&mut refs, &labels.convoy);
    push_one(&mut refs, convoy_address);
    push_one(&mut refs, &at_task);
    push_one(&mut refs, &slash_str(&at_task, &labels.role));
    push_one(&mut refs, &labels.vessel_ref);
    push_one(&mut refs, &in_convoy);
    push_one(&mut refs, &slash_str(&in_convoy, &labels.role));
    push_one(&mut refs, &slash_str(&labels.vessel_ref, &labels.role));
    push_one(&mut refs, &labels.role);
    sort_dedup(&refs)
}

/// How a session is named to an operator who must choose.
pub open spec fn session_display(name: Seq<char>, labels: CrewLabels, address: Option<Seq<char>>) -> Seq<char> {
    let suffix = " ("@ + name + ")"@;
    match address {
        Some(address) => replace(address, "@"@, " @ "@) + suffix,
        None => match (opt(labels.convoy), opt(labels.vessel), opt(labels.role)) {
            (Some(convoy), Some(task), Some(role)) => (convoy + "/"@ + task + "/"@ + role) + suffix,
            (Some(convoy), Some(task), None) => (convoy + "/"@ + task) + suffix,
            (Some(convoy), None, Some(role)) => (convoy + "/"@ + role) + suffix,
            (Some(convoy), None, None) => convoy + suffix,
            _ => name,
        },
    }
}

pub fn attach_reference_label(session_name: &str, labels: &CrewLabels, convoy_address: &Option<String>) -> (r: String)
    ensures
        r@ == session_display(session_name@, *labels, opt(*convoy_address)),
{
    let suffix = concat3(" (", session_name, ")");
    if let Some(address) = convoy_address {
        proof {
            reveal_strlit("@");
        }
        let shown = str_replace(address.as_str(), "@", " @ ");
        return concat2(shown.as_str(), suffix.as_str());
    }
    match (&labels.convoy, &labels.vessel, &labels.role) {
        (Some(convoy), Some(task), Some(role)) => {
            let path = concat5(convoy.as_str(), "/", task.as_str(), "/", role.as_str());
            concat2(path.as_str(), suffix.as_str())
        },
        (Some(convoy), Some(task), None) => {
            let path = concat3(convoy.as_str(), "/", task.as_str());
            concat2(path.as_str(), suffix.as_str())
        },
        (Some(convoy), None, Some(role)) => {
            let path = concat3(convoy.as_str(), "/", role.as_str());
            concat2(path.as_str(), suffix.as_str())
        },
        (Some(convoy), None, None) => concat2(convoy.as_str(), suffix.as_str()),
        _ => session_name.to_owned(),
    }
}

/// Every reference that means a listed row, as they are collected.
pub open spec fn row_references(row: FleetListRow) -> Seq<Seq<char>> {
    let address = replace(row.convoy@, " @ "@, "@"@);
    let crewed = row.crew@ != "-"@;
    let base = seq![address, row.vessel@, row.crew@] + one(opt(row.convoy_ref)) + one(opt(row.session));
    if crewed {
        base + seq![address + "/"@ + row.crew@] + one(slash(opt(row.convoy_ref), Some(row.crew@))) + one(
            match rsplit_once(row.crew@, '/') {
                Some((_, role)) => Some(role),
                None => None,
            },
        )
    } else {
        base
    }
}

pub fn fleet_row_attach_reference_keys(row: &FleetListRow) -> (r: Vec<String>)
    ensures
        strs(r@) == sorted_unique(row_references(*row)),
{
    proof {
        reveal_strlit(" @ ");
    }
    let address = str_replace(row.convoy.as_str(), " @ ", "@");
    let mut refs: Vec<String> = Vec::new();
    let at_crew = concat3(address.as_str(), "/", row.crew.as_str());
    push_one(&mut refs, &Some(address));
    push_one(&mut refs, &Some(row.vessel.clone()));
    push_one(&mut refs, &Some(row.crew.clone()));
    assert(strs(refs@) =~= seq![address@, row.vessel@, row.crew@]);
    push_one(&mut refs, &row.convoy_ref);
    push_one(&mut refs, &row.session);
    if !str_eq(row.crew.as_str(), "-") {
        let crew = Some(row.crew.clone());
        push_one(&mut refs, &Some(at_crew));
        push_one(&mut refs, &slash_str(&row.convoy_ref, &crew));
        let role = match str_rsplit_once(row.crew.as_str(), '/') {
            Some((_, role)) => Some(role),
            None => None,
        };
        push_one(&mut refs, &role);
    }
    sort_dedup(&refs)
}

/// How a listed row is named to an operator who must choose.
pub open spec fn row_display(row: FleetListRow) -> Seq<char> {
    if row.crew@ == "-"@ {
        row.convoy@ + " ("@ + row.host@ + ")"@
    } else {
        row.convoy@ + "/"@ + row.crew@ + " ("@ + row.host@ + ")"@
    }
}

pub fn fleet_row_attach_reference_label(row: &FleetListRow) -> (r: String)
    ensures
        r@ == row_display(*row),
{
    if str_eq(row.crew.as_str(), "-") {
        concat4(row.convoy.as_str(), " (", row.host.as_str(), ")")
    } else {
        let mut r = concat3(row.convoy.as_str(), "/", row.crew.as_str());
        r.append(" (");
        r.append(row.host.as_str());
        r.append(")");
        r
    }
}

/// A checkout as the projection lists it.
#[derive(Debug, PartialEq, Eq)]
pub struct CheckoutRow {
    pub path: String,
    pub host: String,
    pub for_convoy: Option<String>,
}

impl CheckoutRow {
    pub fn copy(&self) -> (r: Self)
        ensures
            r == *self,
    {
        CheckoutRow {
            path: self.path.clone(),
            host: self.host.clone(),
            for_convoy: opt_clone(&self.for_convoy),
        }
    }
}

/// What an attach leads to.
#[derive(Debug, PartialEq, Eq)]
pub enum AttachTarget {
    Local(Arc<TerminalSession>),
    Replica(FleetListRow),
    Checkout(CheckoutRow),
}

/// Something a reference can mean.
#[derive(Debug, PartialEq, Eq)]
pub struct AttachCandidate {
    pub label: String,
    pub references: Vec<String>,
    pub host: String,
    pub target: AttachTarget,
}

/// Everything a reference can mean.
pub struct AttachCandidateIndex {
    pub candidates: Vec<AttachCandidate>,
}

/// `i`, as often as the list holds the text.
pub open spec fn occurrences(list: Seq<Seq<char>>, s: Seq<char>, i: int) -> Seq<int>
    decreases list.len(),
{
    if list.len() == 0 {
        Seq::empty()
    } else if list.last() == s {
        occurrences(list.drop_last(), s, i).push(i)
    } else {
        occurrences(list.drop_last(), s, i)
    }
}

/// The candidates below `n` with exactly this reference.
pub open spec fn exact_matches(candidates: Seq<AttachCandidate>, reference: Seq<char>, n: int) -> Seq<int>
    decreases n,
{
    if n <= 0 {
        Seq::empty()
    } else {
        exact_matches(candidates, reference, n - 1) + occurrences(
            strs(candidates[n - 1].references@),
            reference,
            n - 1,
        )
    }
}

/// Whether one of the references begins with the text.
pub open spec fn some_starts(references: Seq<Seq<char>>, reference: Seq<char>) -> bool {
    exists|k: int| 0 <= k < references.len() && starts(#[trigger] references[k], reference)
}

/// The candidates that a prefix of a reference means.
pub open spec fn prefix_matches(candidates: Seq<AttachCandidate>, reference: Seq<char>) -> Seq<int> {
    picked(candidates.len() as int, |i: int| some_starts(strs(candidates[i].references@), reference))
}

/// The candidates a reference means: those it names, else those it begins.
pub open spec fn named(candidates: Seq<AttachCandidate>, reference: Seq<char>) -> Seq<int> {
    let exact = exact_matches(candidates, reference, candidates.len() as int);
    if exact.len() > 0 {
        exact
    } else {
        prefix_matches(candidates, reference)
    }
}

/// Those of them on the host, where one is asked for.
pub open spec fn on_host(candidates: Seq<AttachCandidate>, at: Seq<int>, host: Option<Seq<char>>) -> Seq<int>
    decreases at.len(),
{
    if at.len() == 0 {
        Seq::empty()
    } else {
        let before = on_host(candidates, at.drop_last(), host);
        if host is None || candidates[at.last()].host@ == host->0 {
            before.push(at.last())
        } else {
            before
        }
    }
}

/// The labels of some candidates.
pub open spec fn labels_at(candidates: Seq<AttachCandidate>, at: Seq<int>) -> Seq<Seq<char>> {
    at.map_values(|i: int| candidates[i].label@)
}

/// The one candidate a reference means, or why there is not one.
pub open spec fn selected(
    candidates: Seq<AttachCandidate>,
    reference: Seq<char>,
    host: Option<Seq<char>>,
) -> Result<int, Seq<char>> {
    let found = on_host(candidates, named(candidates, reference), host);
    if blank(reference) {
        Err("attach reference is required"@)
    } else if found.len() == 0 {
        Err(
            match host {
                Some(host) => "no attach target matching '"@ + reference + "' on host '"@ + host + "'"@,
                None => "no attach target matching '"@ + reference + "'"@,
            },
        )
    } else if found.len() == 1 {
        Ok(found[0])
    } else {
        Err(
            "attach reference '"@ + reference + "' is ambiguous: "@ + join(
                sorted_unique(labels_at(candidates, found)),
                ", "@,
            ),
        )
    }
}

impl AttachCandidateIndex {
    pub fn new(candidates: Vec<AttachCandidate>) -> (r: Self)
        ensures
            r.candidates == candidates,
    {
        AttachCandidateIndex { candidates }
    }

    fn exact(&self, reference: &str) -> (r: Vec<usize>)
        ensures
            ints(r@) == exact_matches(self.candidates@, reference@, self.candidates@.len() as int),
            forall|k: int| 0 <= k < r@.len() ==> #[trigger] r@[k] < self.candidates@.len(),
    {
        let mut r: Vec<usize> = Vec::new();
        let mut i: usize = 0;
        assert(ints(r@) =~= exact_matches(self.candidates@, reference@, 0));
        while i < self.candidates.len()
            invariant
                i <= self.candidates@.len(),
                ints(r@) == exact_matches(self.candidates@, reference@, i as int),
                forall|k: int| 0 <= k < r@.len() ==> #[trigger] r@[k] < self.candidates@.len(),
            decreases self.candidates.len() - i,
        {
            let refs = &self.candidates[i].references;
            let ghost before = ints(r@);
            let mut j: usize = 0;
            assert(before + occurrences(strs(refs@).take(0), reference@, i as int) =~= before);
            while j < refs.len()
                invariant
                    j <= refs@.len(),
                    i < self.candidates@.len(),
                    ints(r@) == before + occurrences(strs(refs@).take(j as int), reference@, i as int),
                    forall|k: int| 0 <= k < r@.len() ==> #[trigger] r@[k] < self.candidates@.len(),
                decreases refs.len() - j,
            {
                assert(strs(refs@).take(j + 1).drop_last() =~= strs(refs@).take(j as int));
                assert(strs(refs@).take(j + 1).last() == refs@[j as int]@);
                if str_eq(refs[j].as_str(), reference) {
                    let ghost was = ints(r@);
                    r.push(i);
                    assert(ints(r@) =~= was.push(i as int));
                    assert(ints(r@) =~= before + occurrences(strs(refs@).take(j + 1), reference@, i as int));
                }
                j = j + 1;
            }
            assert(strs(refs@).take(refs@.len() as int) =~= strs(refs@));
            i = i + 1;
        }
        r
    }

    fn by_prefix(&self, reference: &str) -> (r: Vec<usize>)
        ensures
            ints(r@) == prefix_matches(self.candidates@, reference@),
            forall|k: int| 0 <= k < r@.len() ==> #[trigger] r@[k] < self.candidates@.len(),
    {
        let mut r: Vec<usize> = Vec::new();
        let mut i: usize = 0;
        let ghost p = |i: int| some_starts(strs(self.candidates@[i].references@), reference@);
        assert(ints(r@) =~= picked(0, p));
        while i < self.candidates.len()
            invariant
                i <= self.candidates@.len(),
                p == (|i: int| some_starts(strs(self.candidates@[i].references@), reference@)),
                ints(r@) == picked(i as int, p),
                forall|k: int| 0 <= k < r@.len() ==> #[trigger] r@[k] < self.candidates@.len(),
            decreases self.candidates.len() - i,
        {
            if any_starts(&self.candidates[i].references, reference) {
                let ghost was = ints(r@);
                r.push(i);
                assert(ints(r@) =~= was.push(i as int));
            }
            i = i + 1;
        }
        r
    }

    /// The candidate the reference means, on the host where one is asked for.
    pub fn select(&self, reference: &str, host: &Option<String>) -> (r: Result<usize, String>)
        ensures
            match r {
                Ok(i) => i < self.candidates@.len() && selected(self.candidates@, reference@, opt(*host)) == Ok::<
                    int,
                    Seq<char>,
                >(i as int),
                Err(e) => selected(self.candidates@, reference@, opt(*host)) == Err::<int, Seq<char>>(e@),
            },
    {
        if str_blank(reference) {
            return Err("attach reference is required".to_owned());
        }
        let exact = self.exact(reference);
        assert(ints(exact@).len() == exact@.len());
        let all = if exact.len() > 0 {
            exact
        } else {
            self.by_prefix(reference)
        };
        let mut found: Vec<usize> = Vec::new();
        let mut labels: Vec<String> = Vec::new();
        let mut k: usize = 0;
        assert(ints(found@) =~= on_host(self.candidates@, ints(all@).take(0), opt(*host)));
        assert(strs(labels@) =~= labels_at(self.candidates@, ints(found@)));
        while k < all.len()
            invariant
                k <= all@.len(),
                forall|k: int| 0 <= k < all@.len() ==> #[trigger] all@[k] < self.candidates@.len(),
                forall|k: int| 0 <= k < found@.len() ==> #[trigger] found@[k] < self.candidates@.len(),
                ints(found@) == on_host(self.candidates@, ints(all@).take(k as int), opt(*host)),
                strs(labels@) == labels_at(self.candidates@, ints(found@)),
            decreases all.len() - k,
        {
            let i: usize = all[k];
            assert(ints(all@).take(k + 1).drop_last() =~= ints(all@).take(k as int));
            assert(ints(all@).take(k + 1).last() == i);
            let keep = match host {
                None => true,
                Some(host) => str_eq(self.candidates[i].host.as_str(), host.as_str()),
            };
            if keep {
                let ghost was = ints(found@);
                found.push(i);
                assert(ints(found@) =~= was.push(i as int));
                let label = self.candidates[i].label.clone();
                proof {
                    lemma_strs_push(labels@, label);
                }
                labels.push(label);
                assert(strs(labels@) =~= labels_at(self.candidates@, ints(found@)));
            }
            k = k + 1;
        }
        assert(ints(all@).take(all@.len() as int) =~= ints(all@));
        assert(ints(found@).len() == found@.len());
        if found.len() == 0 {
            return Err(
                match host {
                    Some(host) => concat5(
                        "no attach target matching '",
                        reference,
                        "' on host '",
                        host.as_str(),
                        "'",
                    ),
                    None => concat3("no attach target matching '", reference, "'"),
                },
            );
        }
        if found.len() == 1 {
            assert(ints(found@)[0] == found@[0]);
            return Ok(found[0]);
        }
        let list = join_strs(&sort_dedup(&labels), ", ");
        Err(concat4("attach reference '", reference, "' is ambiguous: ", list.as_str()))
    }
}

proof fn lemma_exact_matches(candidates: Seq<AttachCandidate>, reference: Seq<char>, at: int, n: int)
    requires
        0 <= at < candidates.len(),
        0 <= n <= candidates.len(),
        occurrences(strs(candidates[at].references@), reference, at).len() == 1,
        forall|i: int|
            0 <= i < candidates.len() && i != at ==> occurrences(
                strs((#[trigger] candidates[i]).references@),
                reference,
                i,
            ).len() == 0,
    ensures
        exact_matches(candidates, reference, n) == if n > at {
            seq![at]
        } else {
            Seq::empty()
        },
    decreases n,
{
    if n > 0 {
        lemma_exact_matches(candidates, reference, at, n - 1);
        let i = n - 1;
        let here = occurrences(strs(candidates[i].references@), reference, i);
        lemma_occurrences(strs(candidates[i].references@), reference, i);
        if i != at {
            assert(here =~= Seq::<int>::empty());
        } else {
            assert(here =~= seq![at]);
        }
        assert(exact_matches(candidates, reference, n) =~= exact_matches(candidates, reference, n - 1) + here);
        assert(exact_matches(candidates, reference, n) =~= if n > at {
            seq![at]
        } else {
            Seq::empty()
        });
    } else {
        assert(exact_matches(candidates, reference, n) =~= Seq::<int>::empty());
    }
}

proof fn lemma_occurrences(list: Seq<Seq<char>>, s: Seq<char>, i: int)
    ensures
        forall|k: int| 0 <= k < occurrences(list, s, i).len() ==> #[trigger] occurrences(list, s, i)[k] == i,
    decreases list.len(),
{
    if list.len() > 0 {
        let before = occurrences(list.drop_last(), s, i);
        lemma_occurrences(list.drop_last(), s, i);
        assert forall|k: int| 0 <= k < occurrences(list, s, i).len() implies #[trigger] occurrences(list, s, i)[k] == i by {
            if k < before.len() {
                assert(occurrences(list, s, i)[k] == before[k]);
            }
        }
    }
}

/// A reference that one candidate carries means that candidate, whatever else
/// begins with it.
pub proof fn law_exact_references_win(candidates: Seq<AttachCandidate>, reference: Seq<char>, at: int)
    requires
        !blank(reference),
        0 <= at < candidates.len(),
        occurrences(strs(candidates[at].references@), reference, at).len() == 1,
        forall|i: int|
            0 <= i < candidates.len() && i != at ==> occurrences(
                strs((#[trigger] candidates[i]).references@),
                reference,
                i,
            ).len() == 0,
    ensures
        selected(candidates, reference, None) == Ok::<int, Seq<char>>(at),
{
    lemma_exact_matches(candidates, reference, at, candidates.len() as int);
    let named_here = named(candidates, reference);
    assert(named_here == seq![at]);
    assert(named_here.drop_last() =~= Seq::<int>::empty());
    assert(on_host(candidates, named_here.drop_last(), None) =~= Seq::<int>::empty());
    assert(on_host(candidates, named_here, None) =~= seq![at]);
}

fn any_starts(references: &Vec<String>, reference: &str) -> (r: bool)
    ensures
        r == some_starts(strs(references@), reference@),
{
    let mut k: usize = 0;
    while k < references.len()
        invariant
            k <= references@.len(),
            forall|x: int| 0 <= x < k ==> !starts(#[trigger] strs(references@)[x], reference@),
        decreases references.len() - k,
    {
        if str_starts(references[k].as_str(), reference) {
            assert(starts(strs(references@)[k as int], reference@));
            return true;
        }
        k = k + 1;
    }
    false
}

/// A convoy, as far as its sessions are addressed by it.
pub struct LiveConvoy {
    pub name: String,
    pub role: String,
    pub project_ref: Option<String>,
    pub phase: Option<ConvoyPhase>,
}

/// The addresses of the convoys that have not ended; the later of two counts.
pub open spec fn live_addresses(convoys: Seq<LiveConvoy>) -> Map<Seq<char>, Seq<char>>
    decreases convoys.len(),
{
    if convoys.len() == 0 {
        Map::empty()
    } else {
        let m = live_addresses(convoys.drop_last());
        let c = convoys.last();
        if c.phase is Some && crate::model::terminal_phase(c.phase->0) {
            m
        } else {
            m.insert(c.name@, address_text(c.role@, opt(c.project_ref)))
        }
    }
}

fn live_convoy_addresses(convoys: &Vec<LiveConvoy>) -> (r: OrderedMap<String>)
    ensures
        text_map(r@) == live_addresses(convoys@),
{
    let mut r: OrderedMap<String> = OrderedMap::new();
    let mut i: usize = 0;
    assert(text_map(r@) =~= live_addresses(convoys@.take(0)));
    while i < convoys.len()
        invariant
            i <= convoys@.len(),
            text_map(r@) == live_addresses(convoys@.take(i as int)),
        decreases convoys.len() - i,
    {
        let c = &convoys[i];
        assert(convoys@.take(i + 1).drop_last() =~= convoys@.take(i as int));
        assert(convoys@.take(i + 1).last() == *c);
        let ended = match c.phase {
            Some(phase) => phase.is_terminal(),
            None => false,
        };
        if !ended {
            let ghost before = r@;
            let address = convoy_address(
                c.role.as_str(),
                match &c.project_ref {
                    Some(p) => Some(p.as_str()),
                    None => None,
                },
            );
            r.insert(c.name.clone(), address);
            assert(text_map(r@) =~= text_map(before).insert(c.name@, address_text(c.role@, opt(c.project_ref))));
        }
        i = i + 1;
    }
    assert(convoys@.take(convoys@.len() as int) =~= convoys@);
    r
}

/// The address of the convoy a session's label names.
pub open spec fn label_address(addresses: Map<Seq<char>, Seq<char>>, labels: CrewLabels) -> Option<Seq<char>> {
    match labels.convoy {
        Some(convoy) => if addresses.dom().contains(convoy@) {
            Some(addresses[convoy@])
        } else {
            None
        },
        None => None,
    }
}

fn label_address_str(addresses: &OrderedMap<String>, labels: &CrewLabels) -> (r: Option<String>)
    ensures
        opt(r) == label_address(text_map(addresses@), *labels),
{
    match &labels.convoy {
        Some(convoy) => match addresses.get(convoy.as_str()) {
            Some(address) => Some(address.clone()),
            None => None,
        },
        None => None,
    }
}

/// Where a recorded session can be reached.
pub enum SessionHome {
    /// It runs on this host.
    Local,
    /// It was replicated; the host its origin is routed through, where there is one.
    Replica(Option<String>),
}

/// A recorded session.
pub struct DurableSession {
    pub session: Arc<TerminalSession>,
    pub home: SessionHome,
}

/// A session that belongs to no convoy.
pub struct IndependentRow {
    pub attach: Option<String>,
    pub running: bool,
    pub name: String,
    pub namespace: String,
    /// Whether the row is of a result set that is limited to a scope.
    pub scoped: bool,
}

/// The part of a replica that attach looks at.
pub struct AttachCache {
    pub rows: Vec<FleetListRow>,
    pub independents: Vec<IndependentRow>,
}

/// What the attach candidates are made from.
pub struct AttachInput {
    pub host_name: String,
    pub convoys: Vec<LiveConvoy>,
    pub durable: Vec<DurableSession>,
    pub observed: Vec<Arc<TerminalSession>>,
    pub checkouts: Vec<CheckoutRow>,
    /// The configured replica hosts, each once.
    pub replica_hosts: Vec<String>,
    pub replicas: OrderedMap<AttachCache>,
}

/// The local sessions by name; an observed one replaces a recorded one.
pub open spec fn local_sessions(
    durable: Seq<DurableSession>,
    observed: Seq<Arc<TerminalSession>>,
) -> Map<Seq<char>, Arc<TerminalSession>>
    decreases durable.len() + observed.len(),
{
    if observed.len() > 0 {
        local_sessions(durable, observed.drop_last()).insert(observed.last().name@, observed.last())
    } else if durable.len() > 0 {
        let m = local_sessions(durable.drop_last(), observed);
        match durable.last().home {
            SessionHome::Local => m.insert(durable.last().session.name@, durable.last().session),
            SessionHome::Replica(_) => m,
        }
    } else {
        Map::empty()
    }
}

fn collect_local_sessions(durable: &Vec<DurableSession>, observed: &Vec<Arc<TerminalSession>>) -> (r: OrderedMap<Arc<TerminalSession>>)
    ensures
        r@ == local_sessions(durable@, observed@),
{
    let mut r: OrderedMap<Arc<TerminalSession>> = OrderedMap::new();
    let ghost none: Seq<Arc<TerminalSession>> = Seq::empty();
    let mut i: usize = 0;
    while i < durable.len()
        invariant
            i <= durable@.len(),
            none == Seq::<Arc<TerminalSession>>::empty(),
            r@ == local_sessions(durable@.take(i as int), none),
        decreases durable.len() - i,
    {
        let d = &durable[i];
        assert(durable@.take(i + 1).drop_last() =~= durable@.take(i as int));
        assert(durable@.take(i + 1).last() == *d);
        if let SessionHome::Local = d.home {
            r.insert(d.session.name.clone(), share(&d.session));
        }
        i = i + 1;
    }
    assert(durable@.take(durable@.len() as int) =~= durable@);
    let mut j: usize = 0;
    assert(observed@.take(0) =~= none);
    while j < observed.len()
        invariant
            j <= observed@.len(),
            r@ == local_sessions(durable@, observed@.take(j as int)),
        decreases observed.len() - j,
    {
        assert(observed@.take(j + 1).drop_last() =~= observed@.take(j as int));
        assert(observed@.take(j + 1).last() == observed@[j as int]);
        r.insert(observed[j].name.clone(), share(&observed[j]));
        j = j + 1;
    }
    assert(observed@.take(observed@.len() as int) =~= observed@);
    r
}

pub open spec fn runs(s: TerminalSession) -> bool {
    session_phase(s) == Some(SessionPhase::Running)
}

fn session_runs(s: &TerminalSession) -> (r: bool)
    ensures
        r == runs(*s),
{
    match s.phase() {
        Some(SessionPhase::Running) => true,
        _ => false,
    }
}

/// Where a candidate comes from.
pub enum Origin {
    /// A session on this host.
    Session(Arc<TerminalSession>),
    /// A replicated session, and the host it is reached at.
    Replicated(Arc<TerminalSession>, Seq<char>),
    Checkout(CheckoutRow),
    /// A row of a replica.
    Cached(FleetListRow),
    /// A session of a replica that belongs to no convoy, and the replica's host.
    Independent(IndependentRow, Seq<char>),
}

/// The row a replicated session is attached through.
pub open spec fn replicated_row(row: FleetListRow, s: TerminalSession, host: Seq<char>) -> bool {
    &&& row.convoy@ == session_convoy(s)
    &&& row.convoy_ref is None
    &&& row.vessel@ == s.env_ref@
    &&& row.authority is None
    &&& row.crew@ == session_crew(s)
    &&& row.crew_state@ == "running"@
    &&& row.attention is None
    &&& row.host@ == host
    &&& row.placement_decision is None
    &&& row.namespace@ == s.namespace@
    &&& opt(row.session) == Some(s.name@)
    &&& row.staleness == FleetStaleness::Local
}

/// The row a session that belongs to no convoy is attached through.
pub open spec fn independent_row(row: FleetListRow, i: IndependentRow, host: Seq<char>) -> bool {
    &&& row.convoy@ == "-"@
    &&& row.convoy_ref is None
    &&& row.vessel@ == "-"@
    &&& row.authority is None
    &&& row.crew@ == "-"@
    &&& row.crew_state@ == "running"@
    &&& row.attention is None
    &&& row.host@ == host
    &&& row.placement_decision is None
    &&& row.namespace@ == i.namespace@
    &&& opt(row.session) == opt(i.attach)
    &&& row.staleness == FleetStaleness::Local
}

/// `c` is the candidate that comes from `o`.
pub open spec fn candidate_of(
    c: AttachCandidate,
    o: Origin,
    addresses: Map<Seq<char>, Seq<char>>,
    host_name: Seq<char>,
) -> bool {
    match o {
        Origin::Session(s) => {
            let address = label_address(addresses, s.labels);
            &&& c.label@ == session_display(s.name@, s.labels, address)
            &&& strs(c.references@) == sorted_unique(session_references(s.name@, s.labels, address))
            &&& c.host@ == host_name
            &&& c.target == AttachTarget::Local(s)
        },
        Origin::Replicated(s, host) => {
            let address = label_address(addresses, s.labels);
            &&& c.label@ == session_display(s.name@, s.labels, address)
            &&& strs(c.references@) == sorted_unique(session_references(s.name@, s.labels, address))
            &&& c.host@ == host
            &&& c.target matches AttachTarget::Replica(row) && replicated_row(row, *s, host)
        },
        Origin::Checkout(row) => {
            &&& c.label@ == row.path@ + " ("@ + row.host@ + ")"@
            &&& strs(c.references@) == seq![row.path@]
            &&& c.host@ == row.host@
            &&& c.target == AttachTarget::Checkout(row)
        },
        Origin::Cached(row) => {
            &&& c.label@ == row_display(row)
            &&& strs(c.references@) == sorted_unique(row_references(row))
            &&& c.host@ == row.host@
            &&& c.target == AttachTarget::Replica(row)
        },
        Origin::Independent(i, host) => {
            &&& c.label@ == i.name@ + " ("@ + host + ")"@
            &&& strs(c.references@) == one(opt(i.attach))
            &&& c.host@ == host
            &&& c.target matches AttachTarget::Replica(row) && independent_row(row, i, host)
        },
    }
}

/// `list` holds the candidates of the origins, in turn.
pub open spec fn candidates_of(
    list: Seq<AttachCandidate>,
    origins: Seq<Origin>,
    addresses: Map<Seq<char>, Seq<char>>,
    host_name: Seq<char>,
) -> bool {
    &&& list.len() == origins.len()
    &&& forall|i: int| 0 <= i < list.len() ==> candidate_of(#[trigger] list[i], origins[i], addresses, host_name)
}

/// The running ones among the first `n` local sessions, in name order.
pub open spec fn session_origins(
    names: Seq<Seq<char>>,
    sessions: Map<Seq<char>, Arc<TerminalSession>>,
    n: int,
) -> Seq<Origin>
    decreases n,
{
    if n <= 0 {
        Seq::empty()
    } else {
        let before = session_origins(names, sessions, n - 1);
        let s = sessions[names[n - 1]];
        if runs(*s) {
            before.push(Origin::Session(s))
        } else {
            before
        }
    }
}

/// The running replicated sessions that can be reached.
pub open spec fn replicated_origins(durable: Seq<DurableSession>) -> Seq<Origin>
    decreases durable.len(),
{
    if durable.len() == 0 {
        Seq::empty()
    } else {
        let before = replicated_origins(durable.drop_last());
        let d = durable.last();
        match d.home {
            SessionHome::Replica(Some(host)) => if runs(*d.session) {
                before.push(Origin::Replicated(d.session, host@))
            } else {
                before
            },
            _ => before,
        }
    }
}

/// Whether a session of this name on this host came as a replicated record.
pub open spec fn replicated_already(durable: Seq<DurableSession>, host: Seq<char>, session: Seq<char>) -> bool {
    exists|i: int|
        0 <= i < durable.len() && runs(*(#[trigger] durable[i]).session) && durable[i].session.name@ == session
            && (durable[i].home matches SessionHome::Replica(Some(h)) && h@ == host)
}

/// The checkouts that no convoy uses.
pub open spec fn checkout_origins(checkouts: Seq<CheckoutRow>) -> Seq<Origin>
    decreases checkouts.len(),
{
    if checkouts.len() == 0 {
        Seq::empty()
    } else {
        let before = checkout_origins(checkouts.drop_last());
        if checkouts.last().for_convoy is None {
            before.push(Origin::Checkout(checkouts.last()))
        } else {
            before
        }
    }
}

/// Whether a session of the replica belongs to no convoy.
pub open spec fn independent_reference(cache: AttachCache, session: Seq<char>) -> bool {
    exists|i: int| 0 <= i < cache.independents@.len() && opt((#[trigger] cache.independents@[i]).attach) == Some(session)
}

/// Whether a row of the replica is a candidate: it runs, and its session is
/// neither a replicated record nor one that belongs to no convoy.
pub open spec fn row_counts(durable: Seq<DurableSession>, cache: AttachCache, row: FleetListRow) -> bool {
    &&& row.crew_state@ == "running"@
    &&& row.session matches Some(session) ==> !replicated_already(durable, row.host@, session@)
        && !independent_reference(cache, session@)
}

/// The rows of the replica that are candidates.
pub open spec fn cached_origins(durable: Seq<DurableSession>, cache: AttachCache, n: int) -> Seq<Origin>
    decreases n,
{
    if n <= 0 {
        Seq::empty()
    } else {
        let before = cached_origins(durable, cache, n - 1);
        if row_counts(durable, cache, cache.rows@[n - 1]) {
            before.push(Origin::Cached(cache.rows@[n - 1]))
        } else {
            before
        }
    }
}

/// Whether a row that is a candidate has the session.
pub open spec fn session_listed(durable: Seq<DurableSession>, cache: AttachCache, session: Seq<char>) -> bool {
    exists|i: int|
        0 <= i < cache.rows@.len() && row_counts(durable, cache, #[trigger] cache.rows@[i]) && opt(
            cache.rows@[i].session,
        ) == Some(session)
}

/// Whether the row is of an unlimited result set, runs, and can be attached to.
pub open spec fn independent_offers(i: IndependentRow) -> bool {
    !i.scoped && i.attach is Some && i.running
}

/// Whether the `i`th independent session is a candidate: it is offered, and
/// neither a row nor an earlier offer has its reference.
pub open spec fn independent_counts(durable: Seq<DurableSession>, cache: AttachCache, i: int) -> bool {
    let row = cache.independents@[i];
    &&& independent_offers(row)
    &&& !session_listed(durable, cache, row.attach->0@)
    &&& forall|j: int|
        0 <= j < i && independent_offers(#[trigger] cache.independents@[j]) ==> opt(cache.independents@[j].attach)
            != opt(row.attach)
}

pub open spec fn independent_origins(durable: Seq<DurableSession>, cache: AttachCache, host: Seq<char>, n: int) -> Seq<Origin>
    decreases n,
{
    if n <= 0 {
        Seq::empty()
    } else {
        let before = independent_origins(durable, cache, host, n - 1);
        if independent_counts(durable, cache, n - 1) {
            before.push(Origin::Independent(cache.independents@[n - 1], host))
        } else {
            before
        }
    }
}

/// The candidates of each configured replica that is cached.
pub open spec fn replica_origins(
    durable: Seq<DurableSession>,
    hosts: Seq<Seq<char>>,
    replicas: Map<Seq<char>, AttachCache>,
) -> Seq<Origin>
    decreases hosts.len(),
{
    if hosts.len() == 0 {
        Seq::empty()
    } else {
        let before = replica_origins(durable, hosts.drop_last(), replicas);
        let host = hosts.last();
        if replicas.dom().contains(host) {
            let cache = replicas[host];
            before + cached_origins(durable, cache, cache.rows@.len() as int) + independent_origins(
                durable,
                cache,
                host,
                cache.independents@.len() as int,
            )
        } else {
            before
        }
    }
}

/// Every candidate: sessions of this host, replicated sessions, checkouts, and
/// what only a replica knows.
pub open spec fn attach_origins(input: AttachInput, names: Seq<Seq<char>>) -> Seq<Origin> {
    session_origins(names, local_sessions(input.durable@, input.observed@), names.len() as int)
        + replicated_origins(input.durable@) + checkout_origins(input.checkouts@) + replica_origins(
        input.durable@,
        strs(input.replica_hosts@),
        input.replicas@,
    )
}

fn session_candidate(s: &Arc<TerminalSession>, addresses: &OrderedMap<String>, host_name: &str) -> (c: AttachCandidate)
    ensures
        candidate_of(c, Origin::Session(*s), text_map(addresses@), host_name@),
{
    let address = label_address_str(addresses, &s.labels);
    AttachCandidate {
        label: attach_reference_label(s.name.as_str(), &s.labels, &address),
        references: attach_reference_keys(s.name.as_str(), &s.labels, &address),
        host: host_name.to_owned(),
        target: AttachTarget::Local(share(s)),
    }
}

fn replicated_candidate(s: &Arc<TerminalSession>, host: &str, addresses: &OrderedMap<String>, host_name: &str) -> (c: AttachCandidate)
    ensures
        candidate_of(c, Origin::Replicated(*s, host@), text_map(addresses@), host_name@),
{
    let address = label_address_str(addresses, &s.labels);
    let convoy = match &s.labels.convoy {
        Some(convoy) => convoy.clone(),
        None => "-".to_owned(),
    };
    let role = match &s.labels.role {
        Some(role) => role.clone(),
        None => s.role.clone(),
    };
    let crew = match &s.labels.vessel {
        Some(vessel) => concat3(vessel.as_str(), "/", role.as_str()),
        None => role,
    };
    let row = FleetListRow {
        convoy,
        convoy_ref: None,
        vessel: s.env_ref.clone(),
        authority: None,
        crew,
        crew_state: "running".to_owned(),
        attention: None,
        host: host.to_owned(),
        placement_decision: None,
        namespace: s.namespace.clone(),
        session: Some(s.name.clone()),
        staleness: FleetStaleness::Local,
    };
    AttachCandidate {
        label: attach_reference_label(s.name.as_str(), &s.labels, &address),
        references: attach_reference_keys(s.name.as_str(), &s.labels, &address),
        host: host.to_owned(),
        target: AttachTarget::Replica(row),
    }
}

fn single(s: &str) -> (r: Vec<String>)
    ensures
        strs(r@) == seq![s@],
{
    let mut r: Vec<String> = Vec::new();
    r.push(s.to_owned());
    assert(strs(r@) =~= seq![s@]);
    r
}

fn is_replicated(durable: &Vec<DurableSession>, host: &str, session: &str) -> (r: bool)
    ensures
        r == replicated_already(durable@, host@, session@),
{
    let mut i: usize = 0;
    while i < durable.len()
        invariant
            i <= durable@.len(),
            forall|k: int|
                0 <= k < i ==> !(runs(*(#[trigger] durable@[k]).session) && durable@[k].session.name@ == session@
                    && (durable@[k].home matches SessionHome::Replica(Some(h)) && h@ == host@)),
        decreases durable.len() - i,
    {
        let d = &durable[i];
        if let SessionHome::Replica(Some(h)) = &d.home {
            if session_runs(&d.session) && str_eq(d.session.name.as_str(), session) && str_eq(h.as_str(), host) {
                assert(runs(*durable@[i as int].session));
                return true;
            }
        }
        i = i + 1;
    }
    false
}

fn is_independent(cache: &AttachCache, session: &str) -> (r: bool)
    ensures
        r == independent_reference(*cache, session@),
{
    let mut i: usize = 0;
    while i < cache.independents.len()
        invariant
            i <= cache.independents@.len(),
            forall|k: int| 0 <= k < i ==> opt((#[trigger] cache.independents@[k]).attach) != Some(session@),
        decreases cache.independents.len() - i,
    {
        if opt_is(&cache.independents[i].attach, session) {
            return true;
        }
        i = i + 1;
    }
    false
}

fn row_is_counted(durable: &Vec<DurableSession>, cache: &AttachCache, row: &FleetListRow) -> (r: bool)
    ensures
        r == row_counts(durable@, *cache, *row),
{
    if !str_eq(row.crew_state.as_str(), "running") {
        return false;
    }
    match &row.session {
        Some(session) => !is_replicated(durable, row.host.as_str(), session.as_str()) && !is_independent(
            cache,
            session.as_str(),
        ),
        None => true,
    }
}

fn is_session_listed(durable: &Vec<DurableSession>, cache: &AttachCache, session: &str) -> (r: bool)
    ensures
        r == session_listed(durable@, *cache, session@),
{
    let mut i: usize = 0;
    while i < cache.rows.len()
        invariant
            i <= cache.rows@.len(),
            forall|k: int|
                0 <= k < i ==> !(row_counts(durable@, *cache, #[trigger] cache.rows@[k]) && opt(
                    cache.rows@[k].session,
                ) == Some(session@)),
        decreases cache.rows.len() - i,
    {
        if opt_is(&cache.rows[i].session, session) && row_is_counted(durable, cache, &cache.rows[i]) {
            assert(row_counts(durable@, *cache, cache.rows@[i as int]));
            return true;
        }
        i = i + 1;
    }
    false
}

fn is_independent_counted(durable: &Vec<DurableSession>, cache: &AttachCache, i: usize) -> (r: bool)
    requires
        i < cache.independents@.len(),
    ensures
        r == independent_counts(durable@, *cache, i as int),
{
    let row = &cache.independents[i];
    if row.scoped || !row.running {
        return false;
    }
    let reference = match &row.attach {
        Some(reference) => reference,
        None => {
            return false;
        },
    };
    if is_session_listed(durable, cache, reference.as_str()) {
        return false;
    }
    let mut j: usize = 0;
    while j < i
        invariant
            j <= i < cache.independents@.len(),
            row == cache.independents@[i as int],
            row.attach == Some(*reference),
            forall|k: int|
                0 <= k < j && independent_offers(#[trigger] cache.independents@[k]) ==> opt(
                    cache.independents@[k].attach,
                ) != opt(row.attach),
        decreases i - j,
    {
        let other = &cache.independents[j];
        if !other.scoped && other.running && opt_is(&other.attach, reference.as_str()) {
            assert(independent_offers(cache.independents@[j as int]));
            return false;
        }
        j = j + 1;
    }
    true
}

fn copy_row(row: &FleetListRow) -> (r: FleetListRow)
    ensures
        r == *row,
{
    row_with_staleness(row, row.staleness.copy())
}

/// `list` with one more candidate.
proof fn lemma_one_more(
    list: Seq<AttachCandidate>,
    origins: Seq<Origin>,
    c: AttachCandidate,
    o: Origin,
    addresses: Map<Seq<char>, Seq<char>>,
    host_name: Seq<char>,
)
    requires
        candidates_of(list, origins, addresses, host_name),
        candidate_of(c, o, addresses, host_name),
    ensures
        candidates_of(list.push(c), origins.push(o), addresses, host_name),
{
    let after = list.push(c);
    let all = origins.push(o);
    assert forall|i: int| 0 <= i < after.len() implies candidate_of(#[trigger] after[i], all[i], addresses, host_name) by {
        if i < list.len() {
            assert(after[i] == list[i]);
            assert(all[i] == origins[i]);
        }
    }
}

fn append_replica(
    list: &mut Vec<AttachCandidate>,
    input: &AttachInput,
    host: &str,
    cache: &AttachCache,
    addresses: Ghost<Map<Seq<char>, Seq<char>>>,
    origins: Ghost<Seq<Origin>>,
)
    requires
        candidates_of(old(list)@, origins@, addresses@, input.host_name@),
    ensures
        candidates_of(
            final(list)@,
            origins@ + cached_origins(input.durable@, *cache, cache.rows@.len() as int) + independent_origins(
                input.durable@,
                *cache,
                host@,
                cache.independents@.len() as int,
            ),
            addresses@,
            input.host_name@,
        ),
{
    let mut j: usize = 0;
    assert(origins@ + cached_origins(input.durable@, *cache, 0) =~= origins@);
    while j < cache.rows.len()
        invariant
            j <= cache.rows@.len(),
            candidates_of(
                list@,
                origins@ + cached_origins(input.durable@, *cache, j as int),
                addresses@,
                input.host_name@,
            ),
        decreases cache.rows.len() - j,
    {
        let row = &cache.rows[j];
        if row_is_counted(&input.durable, cache, row) {
            let c = AttachCandidate {
                label: fleet_row_attach_reference_label(row),
                references: fleet_row_attach_reference_keys(row),
                host: row.host.clone(),
                target: AttachTarget::Replica(copy_row(row)),
            };
            proof {
                let was = origins@ + cached_origins(input.durable@, *cache, j as int);
                lemma_one_more(list@, was, c, Origin::Cached(*row), addresses@, input.host_name@);
                assert(was.push(Origin::Cached(*row)) =~= origins@ + cached_origins(
                    input.durable@,
                    *cache,
                    j + 1,
                ));
            }
            list.push(c);
        }
        j = j + 1;
    }
    let ghost rows = origins@ + cached_origins(input.durable@, *cache, cache.rows@.len() as int);
    let mut k: usize = 0;
    assert(rows + independent_origins(input.durable@, *cache, host@, 0) =~= rows);
    while k < cache.independents.len()
        invariant
            k <= cache.independents@.len(),
            candidates_of(
                list@,
                rows + independent_origins(input.durable@, *cache, host@, k as int),
                addresses@,
                input.host_name@,
            ),
        decreases cache.independents.len() - k,
    {
        if is_independent_counted(&input.durable, cache, k) {
            let i = &cache.independents[k];
            let reference = match &i.attach {
                Some(reference) => reference.clone(),
                None => String::new(),
            };
            let row = FleetListRow {
                convoy: "-".to_owned(),
                convoy_ref: None,
                vessel: "-".to_owned(),
                authority: None,
                crew: "-".to_owned(),
                crew_state: "running".to_owned(),
                attention: None,
                host: host.to_owned(),
                placement_decision: None,
                namespace: i.namespace.clone(),
                session: Some(reference.clone()),
                staleness: FleetStaleness::Local,
            };
            let c = AttachCandidate {
                label: concat4(i.name.as_str(), " (", host, ")"),
                references: single(reference.as_str()),
                host: host.to_owned(),
                target: AttachTarget::Replica(row),
            };
            proof {
                let was = rows + independent_origins(input.durable@, *cache, host@, k as int);
                let o = Origin::Independent(*i, host@);
                lemma_one_more(list@, was, c, o, addresses@, input.host_name@);
                assert(was.push(o) =~= rows + independent_origins(input.durable@, *cache, host@, k + 1));
            }
            list.push(c);
        }
        k = k + 1;
    }
}

/// Everything that can be attached to.
pub fn attach_candidate_index(input: &AttachInput) -> (r: AttachCandidateIndex)
    ensures
        exists|names: Seq<Seq<char>>|
            {
                &&& strictly_sorted(names)
                &&& forall|n: Seq<char>|
                    #[trigger] holds(names, n) <==> local_sessions(
                        input.durable@,
                        input.observed@,
                    ).dom().contains(n)
                &&& candidates_of(
                    r.candidates@,
                    #[trigger] attach_origins(*input, names),
                    live_addresses(input.convoys@),
                    input.host_name@,
                )
            },
{
    let addresses = live_convoy_addresses(&input.convoys);
    let sessions = collect_local_sessions(&input.durable, &input.observed);
    let ghost known = live_addresses(input.convoys@);
    let ghost here = input.host_name@;
    let mut list: Vec<AttachCandidate> = Vec::new();
    let n: usize = sessions.len();
    let ghost names = sessions.keys();
    let mut i: usize = 0;
    while i < n
        invariant
            i <= n,
            n == sessions.keys().len(),
            names == sessions.keys(),
            known == text_map(addresses@),
            here == input.host_name@,
            candidates_of(list@, session_origins(names, sessions@, i as int), known, here),
        decreases n - i,
    {
        let s = sessions.value(i);
        if session_runs(s) {
            let c = session_candidate(s, &addresses, input.host_name.as_str());
            proof {
                lemma_one_more(
                    list@,
                    session_origins(names, sessions@, i as int),
                    c,
                    Origin::Session(*s),
                    known,
                    here,
                );
            }
            list.push(c);
        }
        i = i + 1;
    }
    let ghost first = session_origins(names, sessions@, n as int);
    let mut j: usize = 0;
    assert(first + replicated_origins(input.durable@.take(0)) =~= first);
    while j < input.durable.len()
        invariant
            j <= input.durable@.len(),
            known == text_map(addresses@),
            here == input.host_name@,
            candidates_of(list@, first + replicated_origins(input.durable@.take(j as int)), known, here),
        decreases input.durable.len() - j,
    {
        let d = &input.durable[j];
        assert(input.durable@.take(j + 1).drop_last() =~= input.durable@.take(j as int));
        assert(input.durable@.take(j + 1).last() == *d);
        if let SessionHome::Replica(Some(host)) = &d.home {
            if session_runs(&d.session) {
                let c = replicated_candidate(&d.session, host.as_str(), &addresses, input.host_name.as_str());
                proof {
                    let was = first + replicated_origins(input.durable@.take(j as int));
                    let o = Origin::Replicated(d.session, host@);
                    lemma_one_more(list@, was, c, o, known, here);
                    assert(was.push(o) =~= first + replicated_origins(input.durable@.take(j + 1)));
                }
                list.push(c);
            }
        }
        j = j + 1;
    }
    assert(input.durable@.take(input.durable@.len() as int) =~= input.durable@);
    let ghost second = first + replicated_origins(input.durable@);
    let mut k: usize = 0;
    assert(second + checkout_origins(input.checkouts@.take(0)) =~= second);
    while k < input.checkouts.len()
        invariant
            k <= input.checkouts@.len(),
            here == input.host_name@,
            candidates_of(list@, second + checkout_origins(input.checkouts@.take(k as int)), known, here),
        decreases input.checkouts.len() - k,
    {
        let row = &input.checkouts[k];
        assert(input.checkouts@.take(k + 1).drop_last() =~= input.checkouts@.take(k as int));
        assert(input.checkouts@.take(k + 1).last() == *row);
        if row.for_convoy.is_none() {
            let c = AttachCandidate {
                label: concat4(row.path.as_str(), " (", row.host.as_str(), ")"),
                references: single(row.path.as_str()),
                host: row.host.clone(),
                target: AttachTarget::Checkout(row.copy()),
            };
            proof {
                let was = second + checkout_origins(input.checkouts@.take(k as int));
                let o = Origin::Checkout(*row);
                lemma_one_more(list@, was, c, o, known, here);
                assert(was.push(o) =~= second + checkout_origins(input.checkouts@.take(k + 1)));
            }
            list.push(c);
        }
        k = k + 1;
    }
    assert(input.checkouts@.take(input.checkouts@.len() as int) =~= input.checkouts@);
    let ghost third = second + checkout_origins(input.checkouts@);
    let ghost hosts = strs(input.replica_hosts@);
    let mut h: usize = 0;
    assert(third + replica_origins(input.durable@, hosts.take(0), input.replicas@) =~= third);
    while h < input.replica_hosts.len()
        invariant
            h <= input.replica_hosts@.len(),
            here == input.host_name@,
            hosts == strs(input.replica_hosts@),
            candidates_of(
                list@,
                third + replica_origins(input.durable@, hosts.take(h as int), input.replicas@),
                known,
                here,
            ),
        decreases input.replica_hosts.len() - h,
    {
        let host = &input.replica_hosts[h];
        assert(hosts.take(h + 1).drop_last() =~= hosts.take(h as int));
        assert(hosts.take(h + 1).last() == host@);
        if let Some(cache) = input.replicas.get(host.as_str()) {
            let ghost was = third + replica_origins(input.durable@, hosts.take(h as int), input.replicas@);
            append_replica(&mut list, input, host.as_str(), cache, Ghost(known), Ghost(was));
            proof {
                let more = cached_origins(input.durable@, *cache, cache.rows@.len() as int);
                let rest = independent_origins(
                    input.durable@,
                    *cache,
                    host@,
                    cache.independents@.len() as int,
                );
                assert(was + more + rest =~= third + replica_origins(
                    input.durable@,
                    hosts.take(h + 1),
                    input.replicas@,
                ));
            }
        }
        h = h + 1;
    }
    assert(hosts.take(input.replica_hosts@.len() as int) =~= hosts);
    proof {
        assert(attach_origins(*input, names) == third + replica_origins(input.durable@, hosts, input.replicas@));
        assert forall|m: Seq<char>| #[trigger] holds(names, m) <==> sessions@.dom().contains(m) by {
            if holds(names, m) {
                let x = choose|x: int| 0 <= x < names.len() && #[trigger] names[x] == m;
                assert(sessions@.dom().contains(names[x]));
            }
        }
    }
    AttachCandidateIndex::new(list)
}

} // verus!
