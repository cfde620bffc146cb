//! Environments: their variables, their registration over ssh, and how many
//! repositories each has.
use vstd::prelude::*;

use crate::ordered::{text_map, OrderedMap};
use crate::text::{chars_of, concat2, concat4, opt, split_once, str_split_once, string_of, strs};

verus! {

/// Something that is known of an environment.
#[derive(Debug, PartialEq, Eq)]
pub enum EnvironmentAssertion {
    EnvVarSet { key: String, value: String },
    /// Anything that is not a variable.
    Other,
}

/// What is known of an environment.
#[derive(Debug, PartialEq, Eq)]
pub struct EnvironmentBag {
    pub assertions: Vec<EnvironmentAssertion>,
}

/// The variables that assertions set; a later one wins.
pub open spec fn set_vars(assertions: Seq<EnvironmentAssertion>) -> Map<Seq<char>, Seq<char>>
    decreases assertions.len(),
{
    if assertions.len() == 0 {
        Map::empty()
    } else {
        let before = set_vars(assertions.drop_last());
        match assertions.last() {
            EnvironmentAssertion::EnvVarSet { key, value } => before.insert(key@, value@),
            EnvironmentAssertion::Other => before,
        }
    }
}

/// The variables of an environment, as they once were.
#[derive(Debug, PartialEq, Eq)]
pub struct StaticEnvVars {
    pub vars: OrderedMap<String>,
}

impl StaticEnvVars {
    /// The variables by name.
    pub open spec fn all(self) -> Map<Seq<char>, Seq<char>> {
        text_map(self.vars@)
    }

    pub fn from_bag(bag: &EnvironmentBag) -> (r: Self)
        ensures
            r.all() == set_vars(bag.assertions@),
    {
        let mut vars: OrderedMap<String> = OrderedMap::new();
        let mut i: usize = 0;
        assert(text_map(vars@) =~= set_vars(bag.assertions@.take(0)));
        while i < bag.assertions.len()
            invariant
                i <= bag.assertions@.len(),
                text_map(vars@) == set_vars(bag.assertions@.take(i as int)),
            decreases bag.assertions.len() - i,
        {
            assert(bag.assertions@.take(i + 1).drop_last() =~= bag.assertions@.take(i as int));
            assert(bag.assertions@.take(i + 1).last() == bag.assertions@[i as int]);
            match &bag.assertions[i] {
                EnvironmentAssertion::EnvVarSet { key, value } => {
                    let ghost before = vars@;
                    vars.insert(key.clone(), value.clone());
                    assert(text_map(vars@) =~= text_map(before).insert(key@, value@));
                },
                EnvironmentAssertion::Other => {},
            }
            i = i + 1;
        }
        assert(bag.assertions@.take(bag.assertions@.len() as int) =~= bag.assertions@);
        StaticEnvVars { vars }
    }

    /// The value of a variable, where it is set.
    pub fn get(&self, key: &str) -> (r: Option<String>)
        ensures
            opt(r) == (if self.all().dom().contains(key@) {
                Some(self.all()[key@])
            } else {
                None
            }),
    {
        assert(text_map(self.vars@).dom() =~= self.vars@.dom());
        match self.vars.get(key) {
            Some(value) => Some(value.clone()),
            None => None,
        }
    }
}

/// A line without the carriage return that it ends with.
pub open spec fn without_return(line: Seq<char>) -> Seq<char> {
    if line.len() > 0 && line.last() == '\r' {
        line.drop_last()
    } else {
        line
    }
}

/// The lines of a text. A line feed ends a line, with a carriage return before
/// it; what follows the last one is a line where anything does.
pub open spec fn text_lines(text: Seq<char>) -> Seq<Seq<char>>
    decreases text.len(),
{
    if text.len() == 0 {
        Seq::empty()
    } else {
        match split_once(text, '\n') {
            None => seq![text],
            Some((line, rest)) => if rest.len() < text.len() {
                seq![without_return(line)] + text_lines(rest)
            } else {
                Seq::empty()
            },
        }
    }
}

fn split_lines(text: &str) -> (r: Vec<String>)
    ensures
        strs(r@) == text_lines(text@),
{
    let mut r: Vec<String> = Vec::new();
    let mut rest = text.to_owned();
    assert(strs(r@) + text_lines(rest@) =~= text_lines(text@));
    loop
        invariant_except_break
            strs(r@) + text_lines(rest@) == text_lines(text@),
        ensures
            strs(r@) == text_lines(text@),
        decreases rest@.len(),
    {
        let x = chars_of(rest.as_str());
        if x.len() == 0 {
            assert(strs(r@) + text_lines(rest@) =~= strs(r@));
            break;
        }
        let ghost was = strs(r@);
        match str_split_once(rest.as_str(), '\n') {
            None => {
                r.push(rest.clone());
                assert(strs(r@) =~= was + seq![rest@]);
                break;
            },
            Some((line, tail)) => {
                proof {
                    crate::text::lemma_first_at(rest@, '\n');
                    assert(tail@.len() < rest@.len());
                }
                let y = chars_of(line.as_str());
                let n: usize = y.len();
                let kept = if n > 0 && y[n - 1] == '\r' {
                    string_of(&y, 0, n - 1)
                } else {
                    line
                };
                assert(kept@ =~= without_return(y@));
                r.push(kept);
                assert(strs(r@) =~= was.push(kept@));
                assert(strs(r@) + text_lines(tail@) =~= was + text_lines(rest@));
                rest = tail;
            },
        }
    }
    r
}

/// The variables that lines set, each as a name, an equals sign and a value; a
/// later one wins.
pub open spec fn line_vars(lines: Seq<Seq<char>>) -> Map<Seq<char>, Seq<char>>
    decreases lines.len(),
{
    if lines.len() == 0 {
        Map::empty()
    } else {
        let before = line_vars(lines.drop_last());
        match split_once(lines.last(), '=') {
            Some((key, value)) => before.insert(key, value),
            None => before,
        }
    }
}

/// The variables that an environment lists. Where it cannot be asked, it has
/// none.
pub fn load_env_vars(output: &Option<String>) -> (r: StaticEnvVars)
    ensures
        r.all() == match *output {
            Some(text) => line_vars(text_lines(text@)),
            None => Map::<Seq<char>, Seq<char>>::empty(),
        },
{
    let mut vars: OrderedMap<String> = OrderedMap::new();
    assert(text_map(vars@) =~= Map::<Seq<char>, Seq<char>>::empty());
    match output {
        None => {},
        Some(text) => {
            let lines = split_lines(text.as_str());
            let ghost all = strs(lines@);
            let mut i: usize = 0;
            assert(text_map(vars@) =~= line_vars(all.take(0)));
            while i < lines.len()
                invariant
                    i <= lines@.len(),
                    all == strs(lines@),
                    text_map(vars@) == line_vars(all.take(i as int)),
                decreases lines.len() - i,
            {
                assert(all.take(i + 1).drop_last() =~= all.take(i as int));
                assert(all.take(i + 1).last() == lines@[i as int]@);
                match str_split_once(lines[i].as_str(), '=') {
                    Some((key, value)) => {
                        let ghost before = vars@;
                        let ghost (k, v) = (key@, value@);
                        vars.insert(key, value);
                        assert(text_map(vars@) =~= text_map(before).insert(k, v));
                    },
                    None => {},
                }
                i = i + 1;
            }
            assert(all.take(all.len() as int) =~= all);
        },
    }
    StaticEnvVars { vars }
}

/// How a step of a registration over ssh went.
#[derive(Debug, PartialEq, Eq)]
pub enum TimedOutcome {
    Done,
    TimedOut,
    Failed { error: String },
}

/// A host is registered only where it can be reached and looked at.
pub fn check_ssh_registration(hostname: &str, preflight: &TimedOutcome, detection_timed_out: bool) -> (r: Result<(), String>)
    ensures
        match *preflight {
            TimedOutcome::TimedOut => r matches Err(e) && e@ == "ssh preflight timed out for "@ + hostname@,
            TimedOutcome::Failed { error } => r matches Err(e) && e@ == "ssh preflight failed for "@ + hostname@ + ": "@
                + error@,
            TimedOutcome::Done => if detection_timed_out {
                r matches Err(e) && e@ == "host detector execution timed out for "@ + hostname@
            } else {
                r is Ok
            },
        },
{
    match preflight {
        TimedOutcome::TimedOut => Err(concat2("ssh preflight timed out for ", hostname)),
        TimedOutcome::Failed { error } => Err(
            concat4("ssh preflight failed for ", hostname, ": ", error.as_str()),
        ),
        TimedOutcome::Done => {
            if detection_timed_out {
                Err(concat2("host detector execution timed out for ", hostname))
            } else {
                Ok(())
            }
        },
    }
}

/// How many repositories prefer an environment.
pub open spec fn repo_count(preferred: Seq<Option<String>>, environment: Seq<char>) -> nat
    decreases preferred.len(),
{
    if preferred.len() == 0 {
        0
    } else {
        repo_count(preferred.drop_last(), environment) + if opt(preferred.last()) == Some(environment) {
            1nat
        } else {
            0nat
        }
    }
}

/// How many repositories each environment has. `preferred` is the environment
/// of each tracked repository, where it has one.
pub fn local_host_counts(preferred: &Vec<Option<String>>) -> (r: OrderedMap<usize>)
    ensures
        forall|e: Seq<char>| #[trigger] r@.dom().contains(e) <==> repo_count(preferred@, e) > 0,
        forall|e: Seq<char>| #[trigger] r@.dom().contains(e) ==> r@[e] == repo_count(preferred@, e),
{
    let mut r: OrderedMap<usize> = OrderedMap::new();
    let mut i: usize = 0;
    assert(preferred@.take(0).len() == 0);
    while i < preferred.len()
        invariant
            i <= preferred@.len(),
            forall|e: Seq<char>| #[trigger] r@.dom().contains(e) <==> repo_count(preferred@.take(i as int), e) > 0,
            forall|e: Seq<char>| #[trigger] r@.dom().contains(e) ==> r@[e] == repo_count(preferred@.take(i as int), e),
        decreases preferred.len() - i,
    {
        assert(preferred@.take(i + 1).drop_last() =~= preferred@.take(i as int));
        assert(preferred@.take(i + 1).last() == preferred@[i as int]);
        match &preferred[i] {
            Some(environment) => {
                let ghost before = r@;
                let n: usize = match r.get(environment.as_str()) {
                    Some(n) => *n,
                    None => 0,
                };
                proof {
                    lemma_repo_count_bound(preferred@.take(i as int), environment@);
                    assert(before.dom().contains(environment@) <==> repo_count(preferred@.take(i as int), environment@) > 0);
                }
                r.insert(environment.clone(), n + 1);
                assert forall|e: Seq<char>| #[trigger] r@.dom().contains(e) <==> repo_count(preferred@.take(i + 1), e) > 0 by {
                    assert(before.dom().contains(e) <==> repo_count(preferred@.take(i as int), e) > 0);
                }
                assert forall|e: Seq<char>| #[trigger] r@.dom().contains(e) implies r@[e] == repo_count(
                    preferred@.take(i + 1),
                    e,
                ) by {
                    assert(before.dom().contains(e) <==> repo_count(preferred@.take(i as int), e) > 0);
                }
            },
            None => {
                assert forall|e: Seq<char>| #[trigger] r@.dom().contains(e) <==> repo_count(preferred@.take(i + 1), e) > 0 by {
                    assert(r@.dom().contains(e) <==> repo_count(preferred@.take(i as int), e) > 0);
                }
            },
        }
        i = i + 1;
    }
    assert(preferred@.take(preferred@.len() as int) =~= preferred@);
    r
}

proof fn lemma_repo_count_bound(preferred: Seq<Option<String>>, environment: Seq<char>)
    ensures
        repo_count(preferred, environment) <= preferred.len(),
    decreases preferred.len(),
{
    if preferred.len() > 0 {
        lemma_repo_count_bound(preferred.drop_last(), environment);
    }
}

} // verus!
