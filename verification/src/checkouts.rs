//! Checkouts and the repositories they are of: adopting one that is there, and
//! which repository a remote was declared as.
use vstd::prelude::*;

use crate::naming::adopted_checkout_name;
use crate::ordered::{sort_dedup, sorted_unique};
use crate::text::{concat3, concat4, holds, opt, opt_clone, opt_is, str_eq, strs, strs_clone, strs_hold};

verus! {

/// A repository that is known, with whether it declares the remote in question.
#[derive(Debug, PartialEq, Eq)]
pub struct DeclaredSource {
    pub name: String,
    /// Its remotes, in order.
    pub remotes: Vec<String>,
    pub declares: bool,
}

/// Whether a source declares the remote among others.
pub open spec fn declares_several(s: DeclaredSource) -> bool {
    s.declares && s.remotes@.len() > 1
}

/// Whether copies of one repository disagree on its remotes.
pub open spec fn declarations_conflict(sources: Seq<DeclaredSource>) -> bool {
    exists|i: int, j: int|
        0 <= i < sources.len() && 0 <= j < sources.len() && declares_several(#[trigger] sources[i]) && declares_several(
            #[trigger] sources[j],
        ) && sources[i].name@ == sources[j].name@ && strs(sources[i].remotes@) != strs(sources[j].remotes@)
}

/// The names of the repositories that declare the remote.
pub open spec fn declaring_names(sources: Seq<DeclaredSource>) -> Seq<Seq<char>>
    decreases sources.len(),
{
    if sources.len() == 0 {
        Seq::empty()
    } else if sources.last().declares {
        declaring_names(sources.drop_last()).push(sources.last().name@)
    } else {
        declaring_names(sources.drop_last())
    }
}

/// Where the first copy of a repository stands that declares the remote, among
/// others where `several`, or the number of sources.
pub open spec fn copy_at(sources: Seq<DeclaredSource>, name: Seq<char>, several: bool) -> int
    decreases sources.len(),
{
    if sources.len() == 0 || (sources[0].name@ == name && if several {
        declares_several(sources[0])
    } else {
        sources[0].declares
    }) {
        0
    } else {
        1 + copy_at(sources.drop_first(), name, several)
    }
}

/// The copy that speaks for a repository: the first that declares the remote
/// among others, else the first that declares it.
pub open spec fn speaking_copy(sources: Seq<DeclaredSource>, name: Seq<char>) -> int {
    if copy_at(sources, name, true) < sources.len() {
        copy_at(sources, name, true)
    } else {
        copy_at(sources, name, false)
    }
}

/// The repositories, of some, that declare the remote among others.
pub open spec fn several_names(sources: Seq<DeclaredSource>, names: Seq<Seq<char>>) -> Seq<Seq<char>>
    decreases names.len(),
{
    if names.len() == 0 {
        Seq::empty()
    } else if copy_at(sources, names.last(), true) < sources.len() {
        several_names(sources, names.drop_last()).push(names.last())
    } else {
        several_names(sources, names.drop_last())
    }
}

/// The remotes that a repository was declared with: those of the only one that
/// declares the remote among others, else those of the only one that declares
/// it.
pub open spec fn declared_remotes(remote: Seq<char>, sources: Seq<DeclaredSource>) -> Result<Option<Seq<Seq<char>>>, Seq<char>> {
    let names = sorted_unique(declaring_names(sources));
    let several = several_names(sources, names);
    let many = "remote `"@ + remote + "` is declared by multiple Repositories"@;
    if declarations_conflict(sources) {
        Err("remote `"@ + remote + "` has conflicting declarations for one Repository"@)
    } else if several.len() == 1 {
        Ok(Some(strs(sources[speaking_copy(sources, several[0])].remotes@)))
    } else if several.len() > 1 {
        Err(many)
    } else if names.len() == 0 {
        Ok(None)
    } else if names.len() == 1 {
        Ok(Some(strs(sources[speaking_copy(sources, names[0])].remotes@)))
    } else {
        Err(many)
    }
}

fn same_remotes(a: &Vec<String>, b: &Vec<String>) -> (r: bool)
    ensures
        r == (strs(a@) == strs(b@)),
{
    if a.len() != b.len() {
        assert(strs(a@).len() != strs(b@).len());
        return false;
    }
    let mut i: usize = 0;
    while i < a.len()
        invariant
            i <= a@.len(),
            a@.len() == b@.len(),
            forall|k: int| 0 <= k < i ==> (#[trigger] a@[k])@ == b@[k]@,
        decreases a.len() - i,
    {
        if !str_eq(a[i].as_str(), b[i].as_str()) {
            assert(strs(a@)[i as int] != strs(b@)[i as int]);
            return false;
        }
        i = i + 1;
    }
    assert(strs(a@) =~= strs(b@));
    true
}

fn conflicts(sources: &Vec<DeclaredSource>) -> (r: bool)
    ensures
        r == declarations_conflict(sources@),
{
    let mut i: usize = 0;
    while i < sources.len()
        invariant
            i <= sources@.len(),
            forall|a: int, b: int|
                0 <= a < i && 0 <= b < sources@.len() && declares_several(#[trigger] sources@[a]) && declares_several(
                    #[trigger] sources@[b],
                ) && sources@[a].name@ == sources@[b].name@ ==> strs(sources@[a].remotes@) == strs(sources@[b].remotes@),
        decreases sources.len() - i,
    {
        let s = &sources[i];
        let mut j: usize = 0;
        while j < sources.len()
            invariant
                j <= sources@.len(),
                i < sources@.len(),
                *s == sources@[i as int],
                forall|b: int|
                    0 <= b < j && declares_several(*s) && declares_several(#[trigger] sources@[b]) && s.name@
                        == sources@[b].name@ ==> strs(s.remotes@) == strs(sources@[b].remotes@),
            decreases sources.len() - j,
        {
            let t = &sources[j];
            if s.declares && s.remotes.len() > 1 && t.declares && t.remotes.len() > 1 && str_eq(
                s.name.as_str(),
                t.name.as_str(),
            ) && !same_remotes(&s.remotes, &t.remotes) {
                assert(declares_several(sources@[i as int]) && declares_several(sources@[j as int]));
                return true;
            }
            j = j + 1;
        }
        i = i + 1;
    }
    false
}

fn names_declaring(sources: &Vec<DeclaredSource>) -> (r: Vec<String>)
    ensures
        strs(r@) == declaring_names(sources@),
{
    let mut r: Vec<String> = Vec::new();
    let mut i: usize = 0;
    assert(strs(r@) =~= declaring_names(sources@.take(0)));
    while i < sources.len()
        invariant
            i <= sources@.len(),
            strs(r@) == declaring_names(sources@.take(i as int)),
        decreases sources.len() - i,
    {
        assert(sources@.take(i + 1).drop_last() =~= sources@.take(i as int));
        assert(sources@.take(i + 1).last() == sources@[i as int]);
        if sources[i].declares {
            let ghost was = strs(r@);
            r.push(sources[i].name.clone());
            assert(strs(r@) =~= was.push(sources@[i as int].name@));
        }
        i = i + 1;
    }
    assert(sources@.take(sources@.len() as int) =~= sources@);
    r
}

fn find_copy(sources: &Vec<DeclaredSource>, name: &str, several: bool) -> (r: usize)
    ensures
        r == copy_at(sources@, name@, several),
        r <= sources@.len(),
{
    let mut i: usize = 0;
    assert(sources@.skip(0) =~= sources@);
    while i < sources.len()
        invariant
            i <= sources@.len(),
            copy_at(sources@, name@, several) == i + copy_at(sources@.skip(i as int), name@, several),
        decreases sources.len() - i,
    {
        let s = &sources[i];
        assert(sources@.skip(i as int)[0] == *s);
        assert(sources@.skip(i as int).drop_first() =~= sources@.skip(i + 1));
        if str_eq(s.name.as_str(), name) && s.declares && (!several || s.remotes.len() > 1) {
            return i;
        }
        i = i + 1;
    }
    i
}

proof fn lemma_copy_found(sources: Seq<DeclaredSource>, name: Seq<char>)
    requires
        holds(declaring_names(sources), name),
    ensures
        0 <= copy_at(sources, name, false) < sources.len(),
    decreases sources.len(),
{
    lemma_declaring(sources, name);
    let i = choose|i: int| 0 <= i < sources.len() && (#[trigger] sources[i]).declares && sources[i].name@ == name;
    lemma_copy_at(sources, name, i);
}

proof fn lemma_copy_at(sources: Seq<DeclaredSource>, name: Seq<char>, i: int)
    requires
        0 <= i < sources.len(),
        sources[i].declares,
        sources[i].name@ == name,
    ensures
        0 <= copy_at(sources, name, false) <= i,
    decreases sources.len(),
{
    if i > 0 && !(sources[0].name@ == name && sources[0].declares) {
        assert(sources.drop_first()[i - 1] == sources[i]);
        lemma_copy_at(sources.drop_first(), name, i - 1);
    }
}

proof fn lemma_declaring(sources: Seq<DeclaredSource>, name: Seq<char>)
    requires
        holds(declaring_names(sources), name),
    ensures
        exists|i: int| 0 <= i < sources.len() && (#[trigger] sources[i]).declares && sources[i].name@ == name,
    decreases sources.len(),
{
    if sources.len() > 0 {
        let rest = sources.drop_last();
        if sources.last().declares && sources.last().name@ == name {
            assert(sources[sources.len() - 1].name@ == name);
        } else {
            let all = declaring_names(sources);
            let before = declaring_names(rest);
            let k = choose|k: int| 0 <= k < all.len() && all[k] == name;
            assert(before[k] == name);
            lemma_declaring(rest, name);
            let i = choose|i: int| 0 <= i < rest.len() && (#[trigger] rest[i]).declares && rest[i].name@ == name;
            assert(sources[i] == rest[i]);
        }
    }
}

fn remotes_of(sources: &Vec<DeclaredSource>, name: &str) -> (r: Vec<String>)
    requires
        holds(declaring_names(sources@), name@),
    ensures
        strs(r@) == strs(sources@[speaking_copy(sources@, name@)].remotes@),
{
    proof {
        lemma_copy_found(sources@, name@);
    }
    let several: usize = find_copy(sources, name, true);
    if several < sources.len() {
        return strs_clone(&sources[several].remotes);
    }
    let first: usize = find_copy(sources, name, false);
    strs_clone(&sources[first].remotes)
}

/// The remotes that a repository was declared with, for one that was observed
/// by its remote. Nothing is declared of a local repository.
pub fn resolve_declared_repository(canonical_remote: &Option<String>, sources: &Vec<DeclaredSource>) -> (r: Result<
    Option<Vec<String>>,
    String,
>)
    ensures
        match *canonical_remote {
            None => r == Ok::<Option<Vec<String>>, String>(None),
            Some(remote) => match declared_remotes(remote@, sources@) {
                Err(e) => r matches Err(text) && text@ == e,
                Ok(None) => r == Ok::<Option<Vec<String>>, String>(None),
                Ok(Some(remotes)) => r matches Ok(Some(list)) && strs(list@) == remotes,
            },
        },
{
    let remote = match canonical_remote {
        None => {
            return Ok(None);
        },
        Some(remote) => remote,
    };
    if conflicts(sources) {
        return Err(concat3("remote `", remote.as_str(), "` has conflicting declarations for one Repository"));
    }
    let declaring = names_declaring(sources);
    let names = sort_dedup(&declaring);
    let ghost all = strs(names@);
    let mut several: Vec<String> = Vec::new();
    let mut i: usize = 0;
    assert(strs(several@) =~= several_names(sources@, all.take(0)));
    while i < names.len()
        invariant
            i <= names@.len(),
            all == strs(names@),
            strs(several@) == several_names(sources@, all.take(i as int)),
            forall|k: int| 0 <= k < several@.len() ==> holds(all, (#[trigger] several@[k])@),
        decreases names.len() - i,
    {
        assert(all.take(i + 1).drop_last() =~= all.take(i as int));
        assert(all.take(i + 1).last() == names@[i as int]@);
        if find_copy(sources, names[i].as_str(), true) < sources.len() {
            let ghost was = strs(several@);
            assert(all[i as int] == names@[i as int]@);
            several.push(names[i].clone());
            assert(strs(several@) =~= was.push(names@[i as int]@));
        }
        i = i + 1;
    }
    assert(all.take(all.len() as int) =~= all);
    assert(strs(several@).len() == several@.len());
    if several.len() == 1 {
        assert(strs(several@)[0] == several@[0]@);
        assert(holds(declaring_names(sources@), several@[0]@));
        return Ok(Some(remotes_of(sources, several[0].as_str())));
    }
    if several.len() == 0 && names.len() == 0 {
        return Ok(None);
    }
    if several.len() == 0 && names.len() == 1 {
        assert(all[0] == names@[0]@);
        assert(holds(all, names@[0]@));
        assert(holds(declaring_names(sources@), names@[0]@));
        return Ok(Some(remotes_of(sources, names[0].as_str())));
    }
    Err(concat3("remote `", remote.as_str(), "` is declared by multiple Repositories"))
}

/// Whether a branch is a main one.
pub fn is_main_branch(git_ref: &str) -> (r: bool)
    ensures
        r == (git_ref@ == "main"@ || git_ref@ == "master"@ || git_ref@ == "trunk"@),
{
    str_eq(git_ref, "main") || str_eq(git_ref, "master") || str_eq(git_ref, "trunk")
}

/// A repository that is declared with several remotes keeps its canonical one,
/// whatever the configuration of a path says.
pub fn check_configured_repository(path: &str, remotes: usize, resolved_key: &str, configured_key: &str) -> (r: Result<(), String>)
    ensures
        match r {
            Ok(()) => remotes <= 1 || configured_key@ == resolved_key@,
            Err(e) => remotes > 1 && configured_key@ != resolved_key@ && e@ == "repository config for "@ + path@
                + " changes the canonical remote of an existing declaration"@,
        },
{
    if remotes > 1 && !str_eq(configured_key, resolved_key) {
        return Err(
            concat3("repository config for ", path, " changes the canonical remote of an existing declaration"),
        );
    }
    Ok(())
}

/// What an inspection says of a checkout.
#[derive(Debug, PartialEq, Eq)]
pub struct CheckoutInspection {
    pub repo_ref: String,
    pub path: String,
    pub host_ref: String,
    pub git_ref: String,
    pub is_main: bool,
    pub transport_url: Option<String>,
}

pub struct InspectionView {
    pub repo_ref: Seq<char>,
    pub path: Seq<char>,
    pub host_ref: Seq<char>,
    pub git_ref: Seq<char>,
    pub is_main: bool,
    pub transport_url: Option<Seq<char>>,
}

impl View for CheckoutInspection {
    type V = InspectionView;

    open spec fn view(&self) -> InspectionView {
        InspectionView {
            repo_ref: self.repo_ref@,
            path: self.path@,
            host_ref: self.host_ref@,
            git_ref: self.git_ref@,
            is_main: self.is_main,
            transport_url: opt(self.transport_url),
        }
    }
}

impl CheckoutInspection {
    pub fn copy(&self) -> (r: Self)
        ensures
            r@ == self@,
    {
        CheckoutInspection {
            repo_ref: self.repo_ref.clone(),
            path: self.path.clone(),
            host_ref: self.host_ref.clone(),
            git_ref: self.git_ref.clone(),
            is_main: self.is_main,
            transport_url: opt_clone(&self.transport_url),
        }
    }
}

/// What a convoy says of the checkout that it adopts.
#[derive(Debug, PartialEq, Eq)]
pub struct AdoptRequest {
    pub path: String,
    pub repository_url: Option<String>,
    pub git_ref: Option<String>,
}

/// What is known so far of a checkout that is adopted.
#[derive(Debug)]
pub struct AdoptReadings {
    /// Whether the URL that was given is that of a remote.
    pub url_is_remote: bool,
    /// The path with every link in it followed.
    pub canonical: Option<Result<String, String>>,
    /// The key of the repository that the URL means at that path.
    pub configured: Option<Result<String, String>>,
    pub local_host: Option<String>,
    /// What an inspection of the checkout says.
    pub inspected: Option<Result<CheckoutInspection, String>>,
}

/// What to find out next about a checkout that is adopted, or what it is.
#[derive(Debug, PartialEq, Eq)]
pub enum AdoptStep {
    AskCanonical,
    AskConfigured { path: String },
    AskInspection,
    Refuse { message: String },
    Inspected { inspection: CheckoutInspection },
}

/// Whether the URL and the branch that were given leave nothing to inspect.
pub open spec fn told(req: AdoptRequest, rd: AdoptReadings) -> bool {
    req.repository_url is Some && req.git_ref is Some && rd.url_is_remote
}

pub open spec fn main_branch(git_ref: Seq<char>) -> bool {
    git_ref == "main"@ || git_ref == "master"@ || git_ref == "trunk"@
}

/// `step` is what comes next for a checkout that is adopted.
pub open spec fn adopt_decided(step: AdoptStep, req: AdoptRequest, rd: AdoptReadings) -> bool {
    let refused = |e: Seq<char>| step matches AdoptStep::Refuse { message } && message@ == e;
    if !told(req, rd) {
        match rd.inspected {
            None => step is AskInspection,
            Some(Err(e)) => refused(e@),
            Some(Ok(found)) => step matches AdoptStep::Inspected { inspection } && inspection@ == found@,
        }
    } else {
        match rd.canonical {
            None => step is AskCanonical,
            Some(Err(e)) => refused("adopted checkout path "@ + req.path@ + " cannot be resolved: "@ + e@),
            Some(Ok(path)) => match rd.configured {
                None => step matches AdoptStep::AskConfigured { path: p } && p@ == path@,
                Some(Err(e)) => refused(e@),
                Some(Ok(key)) => match rd.local_host {
                    None => refused("local Host identity is unavailable"@),
                    Some(host) => step matches AdoptStep::Inspected { inspection } && inspection@ == (InspectionView {
                        repo_ref: key@,
                        path: path@,
                        host_ref: host@,
                        git_ref: req.git_ref->0@,
                        is_main: main_branch(req.git_ref->0@),
                        transport_url: opt(req.repository_url),
                    }),
                },
            },
        }
    }
}

/// Decides what comes next for a checkout that a convoy adopts.
pub fn inspect_adopted_checkout(req: &AdoptRequest, rd: &AdoptReadings) -> (step: AdoptStep)
    ensures
        adopt_decided(step, *req, *rd),
{
    match (&req.repository_url, &req.git_ref) {
        (Some(url), Some(git_ref)) if rd.url_is_remote => {
            let path = match &rd.canonical {
                None => {
                    return AdoptStep::AskCanonical;
                },
                Some(Err(e)) => {
                    return AdoptStep::Refuse {
                        message: concat4("adopted checkout path ", req.path.as_str(), " cannot be resolved: ", e.as_str()),
                    };
                },
                Some(Ok(path)) => path,
            };
            let key = match &rd.configured {
                None => {
                    return AdoptStep::AskConfigured { path: path.clone() };
                },
                Some(Err(e)) => {
                    return AdoptStep::Refuse { message: e.clone() };
                },
                Some(Ok(key)) => key,
            };
            match &rd.local_host {
                None => AdoptStep::Refuse { message: "local Host identity is unavailable".to_owned() },
                Some(host) => AdoptStep::Inspected {
                    inspection: CheckoutInspection {
                        repo_ref: key.clone(),
                        path: path.clone(),
                        host_ref: host.clone(),
                        git_ref: git_ref.clone(),
                        is_main: is_main_branch(git_ref.as_str()),
                        transport_url: Some(url.clone()),
                    },
                },
            }
        },
        _ => match &rd.inspected {
            None => AdoptStep::AskInspection,
            Some(Err(e)) => AdoptStep::Refuse { message: e.clone() },
            Some(Ok(found)) => AdoptStep::Inspected { inspection: found.copy() },
        },
    }
}

/// The record of an adopted checkout.
#[derive(Debug, PartialEq, Eq)]
pub struct AdoptedRecord {
    pub name: String,
    /// The convoy that adopts it.
    pub convoy: String,
    pub repo_ref: String,
    pub host_ref: String,
    pub path: String,
    pub git_ref: String,
    pub is_main: bool,
    /// Where the convoy fetches the repository from.
    pub repository_url: String,
}

/// The branch that an adopted checkout is on: the one that was asked for, else
/// the one it was found on.
pub open spec fn adopted_branch(git_ref: Option<Seq<char>>, found: Seq<char>) -> Seq<char> {
    match git_ref {
        Some(git_ref) => git_ref,
        None => found,
    }
}

/// The record with which a convoy adopts a checkout. `canonical` is the
/// inspected path with every link in it followed.
pub fn adopted_record(
    convoy: &str,
    inspection: &CheckoutInspection,
    git_ref: &Option<String>,
    canonical: &Result<String, String>,
) -> (r: Result<AdoptedRecord, String>)
    ensures
        match (inspection.transport_url, *canonical) {
            (None, _) => r matches Err(e) && e@ == "an adopted checkout requires a repository transport URL"@,
            (Some(_), Err(error)) => r matches Err(e) && e@ == "adopted checkout path "@ + inspection.path@
                + " cannot be resolved: "@ + error@,
            (Some(url), Ok(path)) => r matches Ok(record) && record.name@ == "adopted-checkout-"@ + convoy@ && record.convoy@
                == convoy@ && record.repo_ref@ == inspection.repo_ref@ && record.host_ref@ == inspection.host_ref@ && record.path@ == path@
                && record.git_ref@ == adopted_branch(opt(*git_ref), inspection.git_ref@) && record.is_main == main_branch(
                record.git_ref@,
            ) && record.repository_url@ == url@,
        },
{
    let url = match &inspection.transport_url {
        None => {
            return Err("an adopted checkout requires a repository transport URL".to_owned());
        },
        Some(url) => url,
    };
    let path = match canonical {
        Err(error) => {
            return Err(
                concat4("adopted checkout path ", inspection.path.as_str(), " cannot be resolved: ", error.as_str()),
            );
        },
        Ok(path) => path,
    };
    let branch = match git_ref {
        Some(git_ref) => git_ref.clone(),
        None => inspection.git_ref.clone(),
    };
    Ok(
        AdoptedRecord {
            name: adopted_checkout_name(convoy),
            convoy: convoy.to_owned(),
            repo_ref: inspection.repo_ref.clone(),
            host_ref: inspection.host_ref.clone(),
            path: path.clone(),
            is_main: is_main_branch(branch.as_str()),
            git_ref: branch,
            repository_url: url.clone(),
        },
    )
}

/// What came of publishing an adopted checkout to the observed records.
#[derive(Debug, PartialEq, Eq)]
pub enum PublishOutcome {
    Published,
    Invalid { message: String },
    /// It is published later: the durable record is what counts.
    Failed { error: String },
}

pub fn adopted_publication(outcome: &PublishOutcome) -> (r: Result<(), String>)
    ensures
        match *outcome {
            PublishOutcome::Invalid { message } => r matches Err(e) && e@ == message@,
            _ => r is Ok,
        },
{
    match outcome {
        PublishOutcome::Invalid { message } => Err(message.clone()),
        _ => Ok(()),
    }
}

/// What came of recording a checkout that is adopted.
#[derive(Debug, PartialEq, Eq)]
#[allow(inconsistent_fields)]
pub enum AdoptOutcome {
    Created { has_status: bool },
    /// One of the name is there already; whether it is adopted is known, or
    /// why it is not.
    Conflict { adopted: Result<bool, String>, same_details: bool, has_status: bool },
    Failed { error: String },
}

/// A checkout that is recorded already is taken over where it is the same.
/// Says whether its status has to be written.
pub fn persist_adopted_checkout(checkout_ref: &str, outcome: &AdoptOutcome) -> (r: Result<bool, String>)
    ensures
        match *outcome {
            AdoptOutcome::Created { has_status } => r == Ok::<bool, String>(!has_status),
            AdoptOutcome::Failed { error } => r matches Err(e) && e@ == error@,
            AdoptOutcome::Conflict { adopted, same_details, has_status } => match adopted {
                Err(error) => r matches Err(e) && e@ == error@,
                Ok(false) => r matches Err(e) && e@ == "checkout "@ + checkout_ref@ + " already exists but is not adopted"@,
                Ok(true) => if same_details {
                    r == Ok::<bool, String>(!has_status)
                } else {
                    r matches Err(e) && e@ == "checkout "@ + checkout_ref@
                        + " already exists with different adopted checkout details"@
                },
            },
        },
{
    match outcome {
        AdoptOutcome::Created { has_status } => Ok(!*has_status),
        AdoptOutcome::Failed { error } => Err(error.clone()),
        AdoptOutcome::Conflict { adopted, same_details, has_status } => match adopted {
            Err(error) => Err(error.clone()),
            Ok(false) => Err(concat3("checkout ", checkout_ref, " already exists but is not adopted")),
            Ok(true) => {
                if *same_details {
                    Ok(!*has_status)
                } else {
                    Err(
                        concat3(
                            "checkout ",
                            checkout_ref,
                            " already exists with different adopted checkout details",
                        ),
                    )
                }
            },
        },
    }
}

/// A convoy that may have adopted a checkout.
#[derive(Debug, PartialEq, Eq)]
pub struct AdoptingConvoy {
    pub name: String,
    /// Where the record comes from, where it is a copy.
    pub origin_root: Option<String>,
    /// The checkouts it expects, where that is known.
    pub expected: Option<Vec<String>>,
}

/// An adopted checkout, with what its record says of its convoy.
#[derive(Debug, PartialEq, Eq)]
pub struct AdoptedCheckout {
    pub name: String,
    pub convoy_ref: Option<String>,
    pub source_root: Option<String>,
}

/// Whether a convoy adopted a checkout: the one its record names, else one that
/// expects it, from the root that its record names.
pub open spec fn adopted_it(convoy: AdoptingConvoy, checkout: AdoptedCheckout) -> bool {
    &&& checkout.source_root is None || opt(convoy.origin_root) == opt(checkout.source_root)
    &&& match checkout.convoy_ref {
        Some(name) => convoy.name@ == name@,
        None => convoy.expected matches Some(expected) && holds(strs(expected@), checkout.name@),
    }
}

/// Where the convoy stands that adopted a checkout, or the number of convoys.
pub open spec fn adopter_at(convoys: Seq<AdoptingConvoy>, checkout: AdoptedCheckout) -> int
    decreases convoys.len(),
{
    if convoys.len() == 0 || adopted_it(convoys[0], checkout) {
        0
    } else {
        1 + adopter_at(convoys.drop_first(), checkout)
    }
}

/// The convoy that adopted a checkout, where one is known.
pub fn adopting_convoy(convoys: &Vec<AdoptingConvoy>, checkout: &AdoptedCheckout) -> (r: Option<usize>)
    ensures
        match r {
            Some(i) => i < convoys@.len() && i == adopter_at(convoys@, *checkout),
            None => adopter_at(convoys@, *checkout) >= convoys@.len(),
        },
{
    let mut i: usize = 0;
    assert(convoys@.skip(0) =~= convoys@);
    while i < convoys.len()
        invariant
            i <= convoys@.len(),
            adopter_at(convoys@, *checkout) == i + adopter_at(convoys@.skip(i as int), *checkout),
        decreases convoys.len() - i,
    {
        let c = &convoys[i];
        assert(convoys@.skip(i as int)[0] == *c);
        assert(convoys@.skip(i as int).drop_first() =~= convoys@.skip(i + 1));
        let origin = match &checkout.source_root {
            None => true,
            Some(root) => opt_is(&c.origin_root, root.as_str()),
        };
        let associated = match &checkout.convoy_ref {
            Some(name) => str_eq(c.name.as_str(), name.as_str()),
            None => match &c.expected {
                Some(expected) => strs_hold(expected, checkout.name.as_str()),
                None => false,
            },
        };
        if origin && associated {
            return Some(i);
        }
        i = i + 1;
    }
    None
}

} // verus!
