//! Convoy addresses: how a role of a project names a convoy record.
use std::str::FromStr;

use vstd::prelude::*;

use crate::model::ConvoyPhase;
use crate::ordered::{sort_dedup, sorted_unique};
use crate::text::{
    concat2, concat3, concat4, concat5, decimal, decimal_str, has_char, join, join_strs, lemma_first_at, lemma_strs_push, opt,
    opt_clone, opt_str, split_once, str_eq, str_has_char, str_split_once, strs,
};

verus! {

/// `role@project`, or the role alone.
pub open spec fn address_text(role: Seq<char>, project: Option<Seq<char>>) -> Seq<char> {
    match project {
        Some(project) => role + "@"@ + project,
        None => role,
    }
}

pub fn convoy_address(role: &str, project: Option<&str>) -> (r: String)
    ensures
        r@ == address_text(role@, opt_str(project)),
{
    match project {
        Some(project) => concat3(role, "@", project),
        None => role.to_owned(),
    }
}

/// The text of an optional project; none is the empty text.
pub open spec fn or_empty(project: Option<Seq<char>>) -> Seq<char> {
    match project {
        Some(project) => project,
        None => Seq::empty(),
    }
}

/// `role@project`, with nothing behind the sign where there is no project.
pub open spec fn disambiguation_text(role: Seq<char>, project: Option<Seq<char>>) -> Seq<char> {
    role + "@"@ + or_empty(project)
}

pub fn convoy_disambiguation_address(role: &str, project: Option<&str>) -> (r: String)
    ensures
        r@ == disambiguation_text(role@, opt_str(project)),
{
    match project {
        Some(project) => concat3(role, "@", project),
        None => {
            let r = concat2(role, "@");
            assert(r@ + Seq::<char>::empty() =~= r@);
            r
        },
    }
}

/// The stable human-facing address of a convoy role, independent of any one
/// generation's resource record name.
#[derive(Debug, Clone, PartialEq, Eq, Hash, PartialOrd, Ord)]
pub struct RoleAddress {
    pub project: String,
    pub role: String,
}

/// Whether a text is `role@project` with both parts and no second sign.
pub open spec fn is_role_address(value: Seq<char>) -> bool {
    split_once(value, '@') matches Some((role, project)) && role.len() > 0 && project.len() > 0 && !has_char(
        project,
        '@',
    )
}

impl RoleAddress {
    /// Reads `role@project`.
    pub fn from_str(value: &str) -> (r: Result<RoleAddress, String>)
        ensures
            r is Ok <==> is_role_address(value@),
            match r {
                Ok(a) => split_once(value@, '@') == Some((a.role@, a.project@)),
                Err(e) => e@ == "invalid role address `"@ + value@ + "`: expected role@project"@,
            },
    {
        match str_split_once(value, '@') {
            Some((role, project)) => {
                if role.as_str().is_empty() || project.as_str().is_empty() || str_has_char(
                    project.as_str(),
                    '@',
                ) {
                    Err(concat3("invalid role address `", value, "`: expected role@project"))
                } else {
                    Ok(RoleAddress { project, role })
                }
            },
            None => Err(concat3("invalid role address `", value, "`: expected role@project")),
        }
    }

    /// `role@project`.
    pub fn to_text(&self) -> (r: String)
        ensures
            r@ == address_text(self.role@, Some(self.project@)),
    {
        concat3(self.role.as_str(), "@", self.project.as_str())
    }
}

impl FromStr for RoleAddress {
    type Err = String;

    fn from_str(value: &str) -> (r: Result<RoleAddress, String>) {
        RoleAddress::from_str(value)
    }
}

proof fn lemma_split_of_address(role: Seq<char>, project: Seq<char>)
    requires
        !has_char(role, '@'),
    ensures
        split_once(address_text(role, Some(project)), '@') == Some((role, project)),
{
    reveal_strlit("@");
    let text = role + "@"@ + project;
    lemma_first_at(role, '@');
    assert(text[role.len() as int] == '@');
    assert forall|k: int| 0 <= k < role.len() implies text[k] != '@' by {
        assert(text[k] == role[k]);
    }
    crate::text::lemma_first_at_unique(text, '@', role.len() as int);
    assert(text.take(role.len() as int) =~= role);
    assert(text.skip(role.len() as int + 1) =~= project);
}

/// Reading the text of an address gives the address back.
pub proof fn law_role_address_round_trip(role: Seq<char>, project: Seq<char>)
    requires
        role.len() > 0,
        project.len() > 0,
        !has_char(role, '@'),
        !has_char(project, '@'),
    ensures
        is_role_address(address_text(role, Some(project))),
        split_once(address_text(role, Some(project)), '@') == Some((role, project)),
{
    lemma_split_of_address(role, project);
}

/// A text that reads as an address is the text of what was read.
pub proof fn law_role_address_text_is_read(value: Seq<char>)
    requires
        is_role_address(value),
    ensures
        split_once(value, '@') matches Some((role, project)) && value == address_text(role, Some(project)),
{
    reveal_strlit("@");
    lemma_first_at(value, '@');
    let at = crate::text::first_at(value, '@');
    assert(value =~= value.take(at) + "@"@ + value.skip(at + 1));
}

/// What an address asks for: a role, and a project where one is named.
pub open spec fn parsed_address(value: Seq<char>) -> Result<(Seq<char>, Option<Seq<char>>), Seq<char>> {
    match split_once(value, '@') {
        Some((role, project)) => if role.len() > 0 && !has_char(project, '@') {
            Ok((role, Some(project)))
        } else {
            Err("invalid convoy address `"@ + value + "`: expected role@project"@)
        },
        None => if value.len() == 0 {
            Err("convoy role cannot be empty"@)
        } else {
            Ok((value, None))
        },
    }
}

/// Splits an address at its first `@`.
pub fn parse_role_address(value: &str) -> (r: Result<(&str, Option<&str>), String>)
    ensures
        match r {
            Ok((role, project)) => parsed_address(value@) == Ok::<
                (Seq<char>, Option<Seq<char>>),
                Seq<char>,
            >((role@, opt_str(project))),
            Err(e) => parsed_address(value@) == Err::<(Seq<char>, Option<Seq<char>>), Seq<char>>(e@),
        },
{
    match str_split_once(value, '@') {
        Some((role, project)) => {
            if role.as_str().is_empty() || str_has_char(project.as_str(), '@') {
                return Err(concat3("invalid convoy address `", value, "`: expected role@project"));
            }
            let at: usize = role.as_str().unicode_len();
            let n: usize = value.unicode_len();
            proof {
                lemma_first_at(value@, '@');
            }
            let head = value.substring_char(0, at);
            let tail = value.substring_char(at + 1, n);
            assert(head@ =~= role@);
            assert(tail@ =~= project@);
            Ok((head, Some(tail)))
        },
        None => {
            if value.is_empty() {
                Err("convoy role cannot be empty".to_owned())
            } else {
                Ok((value, None))
            }
        },
    }
}

/// What an address is matched against.
#[derive(Debug, Clone, Copy)]
pub struct ConvoyAddressIdentity<'a> {
    pub record_name: &'a str,
    pub role: Option<&'a str>,
    pub project: Option<&'a str>,
    pub terminal: bool,
}

/// The indices below `n` at which `p` holds, in order.
pub open spec fn picked(n: int, p: spec_fn(int) -> bool) -> Seq<int>
    decreases n,
{
    if n <= 0 {
        Seq::empty()
    } else if p(n - 1) {
        picked(n - 1, p).push(n - 1)
    } else {
        picked(n - 1, p)
    }
}

pub proof fn lemma_picked(n: int, p: spec_fn(int) -> bool)
    ensures
        forall|k: int| 0 <= k < picked(n, p).len() ==> 0 <= #[trigger] picked(n, p)[k] < n && p(picked(n, p)[k]),
        forall|i: int| 0 <= i < n && p(i) ==> #[trigger] picked(n, p).contains(i),
    decreases n,
{
    if n > 0 {
        lemma_picked(n - 1, p);
        assert forall|k: int| 0 <= k < picked(n, p).len() implies 0 <= #[trigger] picked(n, p)[k] < n && p(
            picked(n, p)[k],
        ) by {
            let before = picked(n - 1, p);
            if k < before.len() {
                assert(picked(n, p)[k] == before[k]);
            }
        }
        assert forall|i: int| 0 <= i < n && p(i) implies #[trigger] picked(n, p).contains(i) by {
            let before = picked(n - 1, p);
            if i == n - 1 {
                assert(picked(n, p)[before.len() as int] == i);
            } else {
                assert(before.contains(i));
                let k = choose|k: int| 0 <= k < before.len() && before[k] == i;
                assert(picked(n, p)[k] == i);
            }
        }
    }
}

/// A list of indices, as numbers.
pub open spec fn ints(v: Seq<usize>) -> Seq<int> {
    v.map_values(|i: usize| i as int)
}

/// The record has exactly the name asked for.
pub open spec fn names_record(ids: Seq<ConvoyAddressIdentity<'_>>, address: Seq<char>) -> spec_fn(int) -> bool {
    |i: int| ids[i].record_name@ == address
}

/// The record plays the role, in the project where one is asked for.
pub open spec fn plays(
    ids: Seq<ConvoyAddressIdentity<'_>>,
    role: Seq<char>,
    project: Option<Seq<char>>,
    i: int,
) -> bool {
    opt_str(ids[i].role) == Some(role) && (project is None || or_empty(opt_str(ids[i].project)) == project->0)
}

/// The records that play the role and are live, or have ended.
pub open spec fn players(
    ids: Seq<ConvoyAddressIdentity<'_>>,
    role: Seq<char>,
    project: Option<Seq<char>>,
    terminal: bool,
) -> Seq<int> {
    picked(ids.len() as int, |i: int| plays(ids, role, project, i) && ids[i].terminal == terminal)
}

/// The live records that play the role; those that have ended where none is live.
pub open spec fn candidates(
    ids: Seq<ConvoyAddressIdentity<'_>>,
    role: Seq<char>,
    project: Option<Seq<char>>,
) -> Seq<int> {
    let live = players(ids, role, project, false);
    if live.len() > 0 {
        live
    } else {
        players(ids, role, project, true)
    }
}

/// The record names at some indices.
pub open spec fn record_names(ids: Seq<ConvoyAddressIdentity<'_>>, at: Seq<int>) -> Seq<Seq<char>> {
    at.map_values(|i: int| ids[i].record_name@)
}

/// The addresses that tell the records at some indices apart.
pub open spec fn address_options(ids: Seq<ConvoyAddressIdentity<'_>>, role: Seq<char>, at: Seq<int>) -> Seq<Seq<char>> {
    at.map_values(|i: int| disambiguation_text(role, opt_str(ids[i].project)))
}

/// Which records an address means. An exact record name wins; otherwise the
/// role is looked up, and several records under different names are refused
/// with the addresses or the names that would tell them apart.
pub open spec fn resolved_indices(ids: Seq<ConvoyAddressIdentity<'_>>, address: Seq<char>) -> Result<Seq<int>, Seq<char>> {
    let exact = picked(ids.len() as int, names_record(ids, address));
    if exact.len() > 0 {
        Ok(exact)
    } else {
        match parsed_address(address) {
            Err(e) => Err(e),
            Ok((role, project)) => {
                let found = candidates(ids, role, project);
                let names = sorted_unique(record_names(ids, found));
                let options = sorted_unique(address_options(ids, role, found));
                if names.len() <= 1 {
                    Ok(found)
                } else if players(ids, role, project, false).len() == 0 && options.len() == 1 {
                    Err(
                        "convoy address `"@ + address
                            + "` matches multiple terminal records; use an exact record name: "@ + join(names, ", "@),
                    )
                } else if options.len() > 1 {
                    Err("convoy role `"@ + role + "` is ambiguous; use one of: "@ + join(options, ", "@))
                } else {
                    Err(
                        "convoy address `"@ + address + "` matches multiple records; use an exact record name: "@
                            + join(names, ", "@),
                    )
                }
            },
        }
    }
}

fn exact_indices(identities: &Vec<ConvoyAddressIdentity<'_>>, address: &str) -> (r: Vec<usize>)
    ensures
        ints(r@) == picked(identities@.len() as int, names_record(identities@, address@)),
{
    let mut r: Vec<usize> = Vec::new();
    let mut i: usize = 0;
    let ghost p = names_record(identities@, address@);
    assert(ints(r@) =~= picked(0, p));
    while i < identities.len()
        invariant
            i <= identities@.len(),
            p == names_record(identities@, address@),
            ints(r@) == picked(i as int, p),
        decreases identities.len() - i,
    {
        if str_eq(identities[i].record_name, address) {
            let ghost was = ints(r@);
            r.push(i);
            assert(ints(r@) =~= was.push(i as int));
        }
        i = i + 1;
    }
    r
}

fn role_is(a: Option<&str>, b: &str) -> (r: bool)
    ensures
        r == (opt_str(a) == Some(b@)),
{
    match a {
        Some(a) => str_eq(a, b),
        None => false,
    }
}

fn project_is(a: Option<&str>, b: &str) -> (r: bool)
    ensures
        r == (or_empty(opt_str(a)) == b@),
{
    match a {
        Some(a) => str_eq(a, b),
        None => {
            let r = b.is_empty();
            assert(r == (Seq::<char>::empty() =~= b@));
            r
        },
    }
}

fn player_indices(
    identities: &Vec<ConvoyAddressIdentity<'_>>,
    role: &str,
    project: Option<&str>,
    terminal: bool,
) -> (r: Vec<usize>)
    ensures
        ints(r@) == players(identities@, role@, opt_str(project), terminal),
{
    let mut r: Vec<usize> = Vec::new();
    let mut i: usize = 0;
    let ghost p = |i: int| plays(identities@, role@, opt_str(project), i) && identities@[i].terminal == terminal;
    assert(ints(r@) =~= picked(0, p));
    while i < identities.len()
        invariant
            i <= identities@.len(),
            p == (|i: int| plays(identities@, role@, opt_str(project), i) && identities@[i].terminal == terminal),
            ints(r@) == picked(i as int, p),
        decreases identities.len() - i,
    {
        let id = &identities[i];
        let matches = role_is(id.role, role) && match project {
            None => true,
            Some(project) => project_is(id.project, project),
        };
        assert(matches == plays(identities@, role@, opt_str(project), i as int));
        if matches && id.terminal == terminal {
            let ghost was = ints(r@);
            r.push(i);
            assert(ints(r@) =~= was.push(i as int));
        }
        i = i + 1;
    }
    r
}

fn names_at(identities: &Vec<ConvoyAddressIdentity<'_>>, at: &Vec<usize>) -> (r: Vec<String>)
    requires
        forall|k: int| 0 <= k < at@.len() ==> #[trigger] at@[k] < identities@.len(),
    ensures
        strs(r@) == record_names(identities@, ints(at@)),
{
    let mut r: Vec<String> = Vec::new();
    let mut k: usize = 0;
    while k < at.len()
        invariant
            k <= at@.len(),
            forall|k: int| 0 <= k < at@.len() ==> #[trigger] at@[k] < identities@.len(),
            strs(r@) =~= record_names(identities@, ints(at@)).take(k as int),
        decreases at.len() - k,
    {
        let name = identities[at[k]].record_name.to_owned();
        proof {
            lemma_strs_push(r@, name);
        }
        r.push(name);
        k = k + 1;
    }
    assert(strs(r@) =~= record_names(identities@, ints(at@)));
    r
}

fn options_at(identities: &Vec<ConvoyAddressIdentity<'_>>, role: &str, at: &Vec<usize>) -> (r: Vec<String>)
    requires
        forall|k: int| 0 <= k < at@.len() ==> #[trigger] at@[k] < identities@.len(),
    ensures
        strs(r@) == address_options(identities@, role@, ints(at@)),
{
    let mut r: Vec<String> = Vec::new();
    let mut k: usize = 0;
    while k < at.len()
        invariant
            k <= at@.len(),
            forall|k: int| 0 <= k < at@.len() ==> #[trigger] at@[k] < identities@.len(),
            strs(r@) =~= address_options(identities@, role@, ints(at@)).take(k as int),
        decreases at.len() - k,
    {
        let name = convoy_disambiguation_address(role, identities[at[k]].project);
        proof {
            lemma_strs_push(r@, name);
        }
        r.push(name);
        k = k + 1;
    }
    assert(strs(r@) =~= address_options(identities@, role@, ints(at@)));
    r
}

pub fn resolve_convoy_candidate_indices(
    identities: &Vec<ConvoyAddressIdentity<'_>>,
    address: &str,
) -> (r: Result<Vec<usize>, String>)
    ensures
        match r {
            Ok(v) => resolved_indices(identities@, address@) == Ok::<Seq<int>, Seq<char>>(ints(v@)) && forall|k: int|
                0 <= k < v@.len() ==> #[trigger] v@[k] < identities@.len(),
            Err(e) => resolved_indices(identities@, address@) == Err::<Seq<int>, Seq<char>>(e@),
        },
{
    let exact = exact_indices(identities, address);
    proof {
        lemma_picked(identities@.len() as int, names_record(identities@, address@));
        assert forall|k: int| 0 <= k < exact@.len() implies #[trigger] exact@[k] < identities@.len() by {
            assert(ints(exact@)[k] == exact@[k]);
        }
        assert(ints(exact@).len() == exact@.len());
    }
    if exact.len() > 0 {
        return Ok(exact);
    }
    let (role, project) = match parse_role_address(address) {
        Ok(parsed) => parsed,
        Err(e) => {
            return Err(e);
        },
    };
    let live = player_indices(identities, role, project, false);
    let all_terminal = live.len() == 0;
    assert(ints(live@).len() == live@.len());
    let found = if all_terminal {
        player_indices(identities, role, project, true)
    } else {
        live
    };
    assert(ints(found@) == candidates(identities@, role@, opt_str(project)));
    proof {
        let t = found@.len() > 0 && all_terminal;
        lemma_picked(
            identities@.len() as int,
            |i: int| plays(identities@, role@, opt_str(project), i) && identities@[i].terminal == false,
        );
        lemma_picked(
            identities@.len() as int,
            |i: int| plays(identities@, role@, opt_str(project), i) && identities@[i].terminal == true,
        );
        assert forall|k: int| 0 <= k < found@.len() implies #[trigger] found@[k] < identities@.len() by {
            assert(ints(found@)[k] == found@[k]);
        }
    }
    let names = sort_dedup(&names_at(identities, &found));
    assert(strs(names@).len() == names@.len());
    if names.len() <= 1 {
        return Ok(found);
    }
    let options = sort_dedup(&options_at(identities, role, &found));
    assert(strs(options@).len() == options@.len());
    if all_terminal && options.len() == 1 {
        let list = join_strs(&names, ", ");
        return Err(
            concat4(
                "convoy address `",
                address,
                "` matches multiple terminal records; use an exact record name: ",
                list.as_str(),
            ),
        );
    }
    if options.len() > 1 {
        let list = join_strs(&options, ", ");
        return Err(concat4("convoy role `", role, "` is ambiguous; use one of: ", list.as_str()));
    }
    let list = join_strs(&names, ", ");
    Err(
        concat4(
            "convoy address `",
            address,
            "` matches multiple records; use an exact record name: ",
            list.as_str(),
        ),
    )
}

/// The one record an address means among the records of one store.
pub open spec fn local_record(ids: Seq<ConvoyAddressIdentity<'_>>, address: Seq<char>) -> Result<Seq<char>, Seq<char>> {
    match resolved_indices(ids, address) {
        Err(e) => Err(e),
        Ok(found) => if found.len() == 1 {
            Ok(ids[found[0]].record_name@)
        } else if found.len() == 0 {
            Err("no convoy matches `"@ + address + "`"@)
        } else {
            Err("convoy record `"@ + address + "` is present from multiple sources"@)
        },
    }
}

pub fn resolve_local_convoy_name(identities: &Vec<ConvoyAddressIdentity<'_>>, address: &str) -> (r: Result<String, String>)
    ensures
        match r {
            Ok(name) => local_record(identities@, address@) == Ok::<Seq<char>, Seq<char>>(name@),
            Err(e) => local_record(identities@, address@) == Err::<Seq<char>, Seq<char>>(e@),
        },
{
    match resolve_convoy_candidate_indices(identities, address) {
        Err(e) => Err(e),
        Ok(found) => {
            assert(ints(found@).len() == found@.len());
            if found.len() == 1 {
                assert(ints(found@)[0] == found@[0]);
                Ok(identities[found[0]].record_name.to_owned())
            } else if found.len() == 0 {
                Err(concat3("no convoy matches `", address, "`"))
            } else {
                Err(concat3("convoy record `", address, "` is present from multiple sources"))
            }
        },
    }
}

/// An exact record name, where one record has it, is never taken for a role.
pub proof fn law_exact_record_name_wins(ids: Seq<ConvoyAddressIdentity<'_>>, i: int)
    requires
        0 <= i < ids.len(),
    ensures
        resolved_indices(ids, ids[i].record_name@) matches Ok(found) && found.contains(i) && forall|k: int|
            0 <= k < found.len() ==> ids[#[trigger] found[k]].record_name@ == ids[i].record_name@,
{
    let p = names_record(ids, ids[i].record_name@);
    lemma_picked(ids.len() as int, p);
    assert(p(i));
    let found = picked(ids.len() as int, p);
    assert(found.contains(i));
    assert forall|k: int| 0 <= k < found.len() implies ids[#[trigger] found[k]].record_name@ == ids[i].record_name@ by {
        assert(p(found[k]));
    }
    assert(resolved_indices(ids, ids[i].record_name@) == Ok::<Seq<int>, Seq<char>>(found));
}

/// A record that has ended is never chosen over a live one with its role.
pub proof fn law_live_records_win(ids: Seq<ConvoyAddressIdentity<'_>>, role: Seq<char>, project: Option<Seq<char>>, i: int)
    requires
        0 <= i < ids.len(),
        plays(ids, role, project, i),
        !ids[i].terminal,
    ensures
        forall|k: int|
            0 <= k < candidates(ids, role, project).len() ==> !ids[#[trigger] candidates(ids, role, project)[k]].terminal,
{
    let p = |i: int| plays(ids, role, project, i) && ids[i].terminal == false;
    lemma_picked(ids.len() as int, p);
    assert(p(i));
    assert(picked(ids.len() as int, p).contains(i));
}

/// A convoy as admission sees it.
pub struct ConvoyGeneration {
    pub project_ref: Option<String>,
    pub role: String,
    /// The generation its label carries, where that is a number.
    pub labelled: Option<u64>,
    pub generation: u64,
    pub phase: Option<ConvoyPhase>,
}

/// The number of a generation.
pub open spec fn generation_of(c: ConvoyGeneration) -> u64 {
    match c.labelled {
        Some(n) => n,
        None => c.generation,
    }
}

pub open spec fn generation_lives(c: ConvoyGeneration) -> bool {
    c.phase is None || !crate::model::terminal_phase(c.phase->0)
}

pub open spec fn same_identity(c: ConvoyGeneration, project: Option<Seq<char>>, role: Seq<char>) -> bool {
    opt(c.project_ref) == project && c.role@ == role
}

/// The highest generation of the identity; the first live one refuses.
pub open spec fn generations(
    convoys: Seq<ConvoyGeneration>,
    project: Option<Seq<char>>,
    role: Seq<char>,
) -> Result<u64, u64>
    decreases convoys.len(),
{
    if convoys.len() == 0 {
        Ok(0)
    } else {
        match generations(convoys.drop_last(), project, role) {
            Err(n) => Err(n),
            Ok(max) => if !same_identity(convoys.last(), project, role) {
                Ok(max)
            } else if generation_lives(convoys.last()) {
                Err(generation_of(convoys.last()))
            } else if generation_of(convoys.last()) > max {
                Ok(generation_of(convoys.last()))
            } else {
                Ok(max)
            },
        }
    }
}

/// The generation a new convoy gets: one more than the last, unless one lives.
pub open spec fn next_generation(
    convoys: Seq<ConvoyGeneration>,
    project: Option<Seq<char>>,
    role: Seq<char>,
) -> Result<u64, Seq<char>> {
    match generations(convoys, project, role) {
        Err(n) => Err(
            "live convoy "@ + address_text(role, project) + " generation "@ + decimal(n as nat) + " already exists"@,
        ),
        Ok(max) => if max < u64::MAX {
            Ok((max + 1) as u64)
        } else {
            Err("convoy "@ + address_text(role, project) + " exhausted its generation counter"@)
        },
    }
}

proof fn lemma_generations_refuse_early(
    convoys: Seq<ConvoyGeneration>,
    project: Option<Seq<char>>,
    role: Seq<char>,
    n: int,
)
    requires
        0 <= n <= convoys.len(),
        generations(convoys.take(n), project, role) is Err,
    ensures
        generations(convoys, project, role) == generations(convoys.take(n), project, role),
    decreases convoys.len() - n,
{
    if n < convoys.len() {
        assert(convoys.take(n + 1).drop_last() =~= convoys.take(n));
        lemma_generations_refuse_early(convoys, project, role, n + 1);
    } else {
        assert(convoys.take(n) =~= convoys);
    }
}

pub fn allocate_convoy_generation(
    convoys: &Vec<ConvoyGeneration>,
    project: &Option<String>,
    role: &str,
) -> (r: Result<u64, String>)
    ensures
        match r {
            Ok(n) => next_generation(convoys@, opt(*project), role@) == Ok::<u64, Seq<char>>(n),
            Err(e) => next_generation(convoys@, opt(*project), role@) == Err::<u64, Seq<char>>(e@),
        },
{
    let text = convoy_address(
        role,
        match project {
            Some(p) => Some(p.as_str()),
            None => None,
        },
    );
    let mut max: u64 = 0;
    let mut i: usize = 0;
    while i < convoys.len()
        invariant
            i <= convoys@.len(),
            text@ == address_text(role@, opt(*project)),
            generations(convoys@.take(i as int), opt(*project), role@) == Ok::<u64, u64>(max),
        decreases convoys.len() - i,
    {
        let c = &convoys[i];
        assert(convoys@.take(i + 1).drop_last() =~= convoys@.take(i as int));
        assert(convoys@.take(i + 1).last() == *c);
        if crate::text::opt_eq(&c.project_ref, project) && str_eq(c.role.as_str(), role) {
            let generation: u64 = match c.labelled {
                Some(n) => n,
                None => c.generation,
            };
            let live = match c.phase {
                None => true,
                Some(phase) => !phase.is_terminal(),
            };
            if live {
                proof {
                    lemma_generations_refuse_early(convoys@, opt(*project), role@, i + 1);
                }
                let number = decimal_str(generation);
                return Err(
                    concat5("live convoy ", text.as_str(), " generation ", number.as_str(), " already exists"),
                );
            }
            if generation > max {
                max = generation;
            }
        }
        i = i + 1;
    }
    assert(convoys@.take(convoys@.len() as int) =~= convoys@);
    if max < u64::MAX {
        Ok(max + 1)
    } else {
        Err(concat3("convoy ", text.as_str(), " exhausted its generation counter"))
    }
}

/// No role is played by two live convoys of one project.
pub open spec fn one_live_each(convoys: Seq<ConvoyGeneration>) -> bool {
    forall|i: int, j: int|
        0 <= i < j < convoys.len() && generation_lives(#[trigger] convoys[i]) && generation_lives(#[trigger] convoys[j])
            ==> !same_identity(convoys[i], opt(convoys[j].project_ref), convoys[j].role@)
}

/// A convoy that is given a generation is the only live one of its project and
/// role.
pub proof fn law_one_live_generation_per_role(convoys: Seq<ConvoyGeneration>, admitted: ConvoyGeneration)
    requires
        one_live_each(convoys),
        next_generation(convoys, opt(admitted.project_ref), admitted.role@) is Ok,
    ensures
        one_live_each(convoys.push(admitted)),
{
    let all = convoys.push(admitted);
    assert forall|i: int, j: int|
        0 <= i < j < all.len() && generation_lives(#[trigger] all[i]) && generation_lives(#[trigger] all[j]) implies !same_identity(
        all[i],
        opt(all[j].project_ref),
        all[j].role@,
    ) by {
        assert(all[i] == convoys[i]);
        if j < convoys.len() {
            assert(all[j] == convoys[j]);
        } else if same_identity(convoys[i], opt(admitted.project_ref), admitted.role@) {
            lemma_generations_bound(convoys, opt(admitted.project_ref), admitted.role@, i);
        }
    }
}

/// What other roles and other projects do, the lack of a project among them,
/// does not count.
pub proof fn law_roles_are_counted_apart(
    convoys: Seq<ConvoyGeneration>,
    other: ConvoyGeneration,
    project: Option<Seq<char>>,
    role: Seq<char>,
)
    requires
        !same_identity(other, project, role),
    ensures
        next_generation(convoys.push(other), project, role) == next_generation(convoys, project, role),
{
    assert(convoys.push(other).drop_last() =~= convoys);
}

/// A generation that is handed out is above every earlier one of its identity,
/// and none of them lives.
pub proof fn law_generations_grow(
    convoys: Seq<ConvoyGeneration>,
    project: Option<Seq<char>>,
    role: Seq<char>,
    i: int,
)
    requires
        0 <= i < convoys.len(),
        same_identity(convoys[i], project, role),
        next_generation(convoys, project, role) is Ok,
    ensures
        generation_of(convoys[i]) < next_generation(convoys, project, role)->Ok_0,
        !generation_lives(convoys[i]),
{
    lemma_generations_bound(convoys, project, role, i);
}

proof fn lemma_generations_bound(
    convoys: Seq<ConvoyGeneration>,
    project: Option<Seq<char>>,
    role: Seq<char>,
    i: int,
)
    requires
        0 <= i < convoys.len(),
        same_identity(convoys[i], project, role),
        generations(convoys, project, role) is Ok,
    ensures
        generation_of(convoys[i]) <= generations(convoys, project, role)->Ok_0,
        !generation_lives(convoys[i]),
    decreases convoys.len(),
{
    if i < convoys.len() - 1 {
        assert(convoys.drop_last()[i] == convoys[i]);
        lemma_generations_bound(convoys.drop_last(), project, role, i);
    }
}

/// A convoy record as attach looks it up.
pub struct ConvoySource {
    pub record_name: String,
    pub role: String,
    pub project_ref: Option<String>,
    pub phase: Option<ConvoyPhase>,
    /// The name of the host the record can be reached at: this host's for a
    /// local record, else the routed host of its origin, where there is one.
    pub owner_host: Option<String>,
}

/// A resolved, currently-live convoy generation. Callers route by owner and
/// select sessions by `record_name`; neither operation accepts a raw role.
#[derive(Debug, Clone, PartialEq, Eq)]
pub struct LiveConvoyRecord {
    pub address: RoleAddress,
    pub record_name: String,
    pub owner_host: String,
}

/// What a reference asks for: an address that is spelt out, or the reference
/// as a role of the project at hand.
pub open spec fn requested_address(
    reference: Seq<char>,
    context: Option<Seq<char>>,
) -> Result<Option<(Seq<char>, Seq<char>)>, Seq<char>> {
    if has_char(reference, '@') {
        if is_role_address(reference) {
            Ok(split_once(reference, '@'))
        } else {
            Err("invalid role address `"@ + reference + "`: expected role@project"@)
        }
    } else {
        match context {
            Some(project) => Ok(Some((reference, project))),
            None => Ok(None),
        }
    }
}

/// Whether the record is a live one of the role, and of the project where one is asked for.
pub open spec fn answers(source: ConvoySource, role: Seq<char>, project: Option<Seq<char>>) -> bool {
    &&& source.role@ == role
    &&& source.phase is None || !crate::model::terminal_phase(source.phase->0)
    &&& project is None || opt(source.project_ref) == project
}

/// The records that answer, by index.
pub open spec fn answering(sources: Seq<ConvoySource>, role: Seq<char>, project: Option<Seq<char>>) -> Seq<int> {
    picked(sources.len() as int, |i: int| answers(sources[i], role, project))
}

/// The addresses of the records that have a project.
pub open spec fn projects_at(sources: Seq<ConvoySource>, at: Seq<int>) -> Seq<Seq<char>>
    decreases at.len(),
{
    if at.len() == 0 {
        Seq::empty()
    } else {
        let before = projects_at(sources, at.drop_last());
        match sources[at.last()].project_ref {
            Some(project) => before.push(project@),
            None => before,
        }
    }
}

/// `role@project` for each project.
pub open spec fn addresses_in(role: Seq<char>, projects: Seq<Seq<char>>) -> Seq<Seq<char>> {
    projects.map_values(|p: Seq<char>| address_text(role, Some(p)))
}

/// Which live record a reference means: none where it is no role, one where
/// exactly one answers, and an error that lists the addresses where several do.
pub open spec fn live_record(
    sources: Seq<ConvoySource>,
    reference: Seq<char>,
    context: Option<Seq<char>>,
) -> Result<Option<(Seq<char>, int)>, Seq<char>> {
    match requested_address(reference, context) {
        Err(e) => Err(e),
        Ok(requested) => {
            let role = match requested {
                Some((role, _)) => role,
                None => reference,
            };
            let project = match requested {
                Some((_, project)) => Some(project),
                None => None,
            };
            let found = answering(sources, role, project);
            if found.len() == 0 {
                if has_char(reference, '@') {
                    Err("no live convoy matches `"@ + reference + "`"@)
                } else {
                    Ok(None)
                }
            } else if found.len() == 1 {
                match (sources[found[0]].project_ref, sources[found[0]].owner_host) {
                    (None, _) => Err(
                        "live convoy "@ + sources[found[0]].record_name@ + " has no project identity"@,
                    ),
                    (Some(p), None) => Err("owner host for "@ + role + "@"@ + p@ + " is unreachable"@),
                    (Some(_), Some(_)) => Ok(Some((role, found[0]))),
                }
            } else {
                Err(
                    role + " is ambiguous: "@ + join(
                        addresses_in(role, sorted_unique(projects_at(sources, found))),
                        ", "@,
                    ),
                )
            }
        },
    }
}

fn answering_indices(sources: &Vec<ConvoySource>, role: &str, project: &Option<String>) -> (r: Vec<usize>)
    ensures
        ints(r@) == answering(sources@, role@, opt(*project)),
        forall|k: int| 0 <= k < r@.len() ==> #[trigger] r@[k] < sources@.len(),
{
    let mut r: Vec<usize> = Vec::new();
    let mut i: usize = 0;
    let ghost p = |i: int| answers(sources@[i], role@, opt(*project));
    assert(ints(r@) =~= picked(0, p));
    while i < sources.len()
        invariant
            i <= sources@.len(),
            p == (|i: int| answers(sources@[i], role@, opt(*project))),
            ints(r@) == picked(i as int, p),
            forall|k: int| 0 <= k < r@.len() ==> #[trigger] r@[k] < i,
        decreases sources.len() - i,
    {
        let s = &sources[i];
        let live = match s.phase {
            None => true,
            Some(phase) => !phase.is_terminal(),
        };
        let there = project.is_none() || crate::text::opt_eq(&s.project_ref, project);
        if str_eq(s.role.as_str(), role) && live && there {
            let ghost was = ints(r@);
            r.push(i);
            assert(ints(r@) =~= was.push(i as int));
        }
        i = i + 1;
    }
    r
}

fn project_names_at(sources: &Vec<ConvoySource>, at: &Vec<usize>) -> (r: Vec<String>)
    requires
        forall|k: int| 0 <= k < at@.len() ==> #[trigger] at@[k] < sources@.len(),
    ensures
        strs(r@) == projects_at(sources@, ints(at@)),
{
    let mut r: Vec<String> = Vec::new();
    let mut k: usize = 0;
    assert(strs(r@) =~= projects_at(sources@, ints(at@).take(0)));
    while k < at.len()
        invariant
            k <= at@.len(),
            forall|k: int| 0 <= k < at@.len() ==> #[trigger] at@[k] < sources@.len(),
            strs(r@) == projects_at(sources@, ints(at@).take(k as int)),
        decreases at.len() - k,
    {
        assert(ints(at@).take(k + 1).drop_last() =~= ints(at@).take(k as int));
        assert(ints(at@).take(k + 1).last() == at@[k as int]);
        if let Some(project) = &sources[at[k]].project_ref {
            let name = project.clone();
            proof {
                lemma_strs_push(r@, name);
            }
            r.push(name);
        }
        k = k + 1;
    }
    assert(ints(at@).take(at@.len() as int) =~= ints(at@));
    r
}

fn address_lines(role: &str, projects: &Vec<String>) -> (r: Vec<String>)
    ensures
        strs(r@) == addresses_in(role@, strs(projects@)),
{
    let mut r: Vec<String> = Vec::new();
    let mut k: usize = 0;
    while k < projects.len()
        invariant
            k <= projects@.len(),
            strs(r@) =~= addresses_in(role@, strs(projects@)).take(k as int),
        decreases projects.len() - k,
    {
        let line = concat3(role, "@", projects[k].as_str());
        proof {
            lemma_strs_push(r@, line);
        }
        r.push(line);
        k = k + 1;
    }
    assert(strs(r@) =~= addresses_in(role@, strs(projects@)));
    r
}

pub fn resolve_live_convoy_record(
    sources: &Vec<ConvoySource>,
    reference: &str,
    project_context: &Option<String>,
) -> (r: Result<Option<LiveConvoyRecord>, String>)
    ensures
        match r {
            Err(e) => live_record(sources@, reference@, opt(*project_context)) == Err::<
                Option<(Seq<char>, int)>,
                Seq<char>,
            >(e@),
            Ok(None) => live_record(sources@, reference@, opt(*project_context)) == Ok::<
                Option<(Seq<char>, int)>,
                Seq<char>,
            >(None),
            Ok(Some(record)) => live_record(sources@, reference@, opt(*project_context)) matches Ok(Some((role, i)))
                && record.address.role@ == role && opt(sources@[i].project_ref) == Some(record.address.project@)
                && record.record_name@ == sources@[i].record_name@ && opt(sources@[i].owner_host) == Some(
                record.owner_host@,
            ),
        },
{
    let explicit = str_has_char(reference, '@');
    let (role, project): (String, Option<String>) = if explicit {
        match RoleAddress::from_str(reference) {
            Ok(address) => (address.role, Some(address.project)),
            Err(e) => {
                return Err(e);
            },
        }
    } else {
        (reference.to_owned(), opt_clone(project_context))
    };
    let found = answering_indices(sources, role.as_str(), &project);
    assert(ints(found@).len() == found@.len());
    if found.len() == 0 {
        return if explicit {
            Err(concat3("no live convoy matches `", reference, "`"))
        } else {
            Ok(None)
        };
    }
    if found.len() == 1 {
        assert(ints(found@)[0] == found@[0]);
        let source = &sources[found[0]];
        return match (&source.project_ref, &source.owner_host) {
            (None, _) => Err(concat3("live convoy ", source.record_name.as_str(), " has no project identity")),
            (Some(p), None) => Err(
                concat5("owner host for ", role.as_str(), "@", p.as_str(), " is unreachable"),
            ),
            (Some(p), Some(host)) => Ok(
                Some(
                    LiveConvoyRecord {
                        address: RoleAddress { project: p.clone(), role },
                        record_name: source.record_name.clone(),
                        owner_host: host.clone(),
                    },
                ),
            ),
        };
    }
    let projects = sort_dedup(&project_names_at(sources, &found));
    let lines = address_lines(role.as_str(), &projects);
    let list = join_strs(&lines, ", ");
    Err(concat3(role.as_str(), " is ambiguous: ", list.as_str()))
}

} // verus!
