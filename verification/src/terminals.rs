//! Managed terminals: which repository one belongs to, and what changed since
//! they were last looked at.
use vstd::prelude::*;

use crate::ordered::OrderedMap;
use crate::text::{holds, str_eq, strs};

verus! {

/// Whether a terminal runs.
#[derive(Debug, Clone, Copy, PartialEq, Eq, Structural)]
pub enum TerminalStatus {
    Running,
    Disconnected,
    Exited(i32),
}

/// What an operator should know of a pane that ended.
#[derive(Debug, Clone, Copy, PartialEq, Eq, Structural)]
pub struct PaneExitAttention {
    pub exit_code: i32,
}

/// A terminal that is looked after.
#[derive(Debug, PartialEq, Eq)]
pub struct ManagedTerminal {
    pub set_id: String,
    pub role: String,
    pub command: String,
    pub working_directory: String,
    pub status: TerminalStatus,
    pub attention: Option<PaneExitAttention>,
}

pub struct TerminalView {
    pub set_id: Seq<char>,
    pub role: Seq<char>,
    pub command: Seq<char>,
    pub working_directory: Seq<char>,
    pub status: TerminalStatus,
    pub attention: Option<PaneExitAttention>,
}

impl View for ManagedTerminal {
    type V = TerminalView;

    open spec fn view(&self) -> TerminalView {
        TerminalView {
            set_id: self.set_id@,
            role: self.role@,
            command: self.command@,
            working_directory: self.working_directory@,
            status: self.status,
            attention: self.attention,
        }
    }
}

impl ManagedTerminal {
    pub fn copy(&self) -> (r: Self)
        ensures
            r@ == self@,
    {
        ManagedTerminal {
            set_id: self.set_id.clone(),
            role: self.role.clone(),
            command: self.command.clone(),
            working_directory: self.working_directory.clone(),
            status: self.status,
            attention: self.attention,
        }
    }

    pub fn same(&self, other: &ManagedTerminal) -> (r: bool)
        ensures
            r == (self@ == other@),
    {
        let attention = match (self.attention, other.attention) {
            (None, None) => true,
            (Some(a), Some(b)) => a == b,
            _ => false,
        };
        str_eq(self.set_id.as_str(), other.set_id.as_str()) && str_eq(self.role.as_str(), other.role.as_str()) && str_eq(
            self.command.as_str(),
            other.command.as_str(),
        ) && str_eq(self.working_directory.as_str(), other.working_directory.as_str()) && self.status == other.status
            && attention
    }
}

/// What happened to a terminal.
#[derive(Debug, PartialEq, Eq)]
pub enum TerminalOp {
    Added(ManagedTerminal),
    Updated(ManagedTerminal),
    Removed,
}

/// A change of one terminal.
#[derive(Debug, PartialEq, Eq)]
pub struct TerminalChange {
    pub key: String,
    pub op: TerminalOp,
}

pub enum OpView {
    Added(TerminalView),
    Updated(TerminalView),
    Removed,
}

impl View for TerminalOp {
    type V = OpView;

    open spec fn view(&self) -> OpView {
        match *self {
            TerminalOp::Added(t) => OpView::Added(t@),
            TerminalOp::Updated(t) => OpView::Updated(t@),
            TerminalOp::Removed => OpView::Removed,
        }
    }
}

/// The views of changes.
pub open spec fn change_views(changes: Seq<TerminalChange>) -> Seq<(Seq<char>, OpView)> {
    Seq::new(changes.len(), |i: int| (changes[i].key@, changes[i].op@))
}

/// Terminals, by value.
pub open spec fn terminal_map(m: Map<Seq<char>, ManagedTerminal>) -> Map<Seq<char>, TerminalView> {
    m.map_values(|t: ManagedTerminal| t@)
}

/// The terminals that were there before.
pub open spec fn known_terminals(previous: Option<OrderedMap<ManagedTerminal>>) -> Map<Seq<char>, TerminalView> {
    match previous {
        Some(m) => terminal_map(m@),
        None => Map::empty(),
    }
}

/// The keys that were there before.
pub open spec fn known_keys(previous: Option<OrderedMap<ManagedTerminal>>) -> Seq<Seq<char>> {
    match previous {
        Some(m) => m.keys(),
        None => Seq::empty(),
    }
}

/// The terminals that are new, or not what they were.
pub open spec fn upserts(
    keys: Seq<Seq<char>>,
    before: Map<Seq<char>, TerminalView>,
    now: Map<Seq<char>, TerminalView>,
) -> Seq<(Seq<char>, OpView)>
    decreases keys.len(),
{
    if keys.len() == 0 {
        Seq::empty()
    } else {
        let key = keys.last();
        let rest = upserts(keys.drop_last(), before, now);
        if !before.dom().contains(key) {
            rest.push((key, OpView::Added(now[key])))
        } else if before[key] != now[key] {
            rest.push((key, OpView::Updated(now[key])))
        } else {
            rest
        }
    }
}

/// The terminals that are gone.
pub open spec fn removals(keys: Seq<Seq<char>>, now: Map<Seq<char>, TerminalView>) -> Seq<(Seq<char>, OpView)>
    decreases keys.len(),
{
    if keys.len() == 0 {
        Seq::empty()
    } else {
        let rest = removals(keys.drop_last(), now);
        if now.dom().contains(keys.last()) {
            rest
        } else {
            rest.push((keys.last(), OpView::Removed))
        }
    }
}

/// What changed between two looks at the terminals.
pub fn managed_terminal_changes(
    previous: &Option<OrderedMap<ManagedTerminal>>,
    current: &OrderedMap<ManagedTerminal>,
) -> (r: Vec<TerminalChange>)
    ensures
        change_views(r@) == upserts(current.keys(), known_terminals(*previous), terminal_map(current@)) + removals(
            known_keys(*previous),
            terminal_map(current@),
        ),
{
    let ghost before = known_terminals(*previous);
    let ghost now = terminal_map(current@);
    let mut r: Vec<TerminalChange> = Vec::new();
    let n: usize = current.len();
    let mut i: usize = 0;
    assert(change_views(r@) =~= upserts(current.keys().take(0), before, now));
    while i < n
        invariant
            i <= n,
            n == current.keys().len(),
            before == known_terminals(*previous),
            now == terminal_map(current@),
            change_views(r@) == upserts(current.keys().take(i as int), before, now),
        decreases n - i,
    {
        let key = current.key(i);
        let terminal = current.value(i);
        assert(current.keys().take(i + 1).drop_last() =~= current.keys().take(i as int));
        assert(current.keys().take(i + 1).last() == key@);
        assert(now[key@] == terminal@);
        let known = match previous {
            Some(m) => {
                assert(terminal_map(m@).dom() =~= m@.dom());
                m.get(key.as_str())
            },
            None => None,
        };
        let op = match known {
            None => Some(TerminalOp::Added(terminal.copy())),
            Some(old) => {
                if old.same(terminal) {
                    None
                } else {
                    Some(TerminalOp::Updated(terminal.copy()))
                }
            },
        };
        match op {
            Some(op) => {
                let ghost was = change_views(r@);
                let ghost view = (key@, op@);
                r.push(TerminalChange { key: key.clone(), op });
                assert(change_views(r@) =~= was.push(view));
            },
            None => {},
        }
        i = i + 1;
    }
    assert(current.keys().take(n as int) =~= current.keys());
    let ghost first = change_views(r@);
    match previous {
        None => {
            assert(change_views(r@) =~= first + removals(known_keys(*previous), now));
        },
        Some(m) => {
            let k: usize = m.len();
            let mut j: usize = 0;
            assert(change_views(r@) =~= first + removals(m.keys().take(0), now));
            while j < k
                invariant
                    j <= k,
                    k == m.keys().len(),
                    now == terminal_map(current@),
                    change_views(r@) == first + removals(m.keys().take(j as int), now),
                decreases k - j,
            {
                let key = m.key(j);
                assert(m.keys().take(j + 1).drop_last() =~= m.keys().take(j as int));
                assert(m.keys().take(j + 1).last() == key@);
                assert(now.dom() =~= current@.dom());
                if !current.contains_key(key.as_str()) {
                    let ghost was = change_views(r@);
                    r.push(TerminalChange { key: key.clone(), op: TerminalOp::Removed });
                    assert(change_views(r@) =~= was.push((key@, OpView::Removed)));
                    assert(was.push((key@, OpView::Removed)) =~= first + removals(m.keys().take(j + 1), now));
                }
                j = j + 1;
            }
            assert(m.keys().take(k as int) =~= m.keys());
        },
    }
    r
}

/// Terminals after a change.
pub open spec fn after_change(m: Map<Seq<char>, TerminalView>, change: (Seq<char>, OpView)) -> Map<Seq<char>, TerminalView> {
    match change.1 {
        OpView::Added(t) => m.insert(change.0, t),
        OpView::Updated(t) => m.insert(change.0, t),
        OpView::Removed => m.remove(change.0),
    }
}

/// Terminals after changes.
pub open spec fn after_changes(m: Map<Seq<char>, TerminalView>, changes: Seq<(Seq<char>, OpView)>) -> Map<Seq<char>, TerminalView>
    decreases changes.len(),
{
    if changes.len() == 0 {
        m
    } else {
        after_change(after_changes(m, changes.drop_last()), changes.last())
    }
}

/// Whether keys list those of a map.
pub open spec fn lists(keys: Seq<Seq<char>>, m: Map<Seq<char>, TerminalView>) -> bool {
    forall|k: Seq<char>| #[trigger] m.dom().contains(k) <==> holds(keys, k)
}

proof fn lemma_after_upserts(
    keys: Seq<Seq<char>>,
    before: Map<Seq<char>, TerminalView>,
    now: Map<Seq<char>, TerminalView>,
    start: Map<Seq<char>, TerminalView>,
    k: Seq<char>,
)
    requires
        start == before,
        forall|i: int| 0 <= i < keys.len() ==> now.dom().contains(#[trigger] keys[i]),
    ensures
        ({
            let m = after_changes(start, upserts(keys, before, now));
            if holds(keys, k) {
                m.dom().contains(k) && m[k] == now[k]
            } else {
                m.dom().contains(k) == before.dom().contains(k) && (before.dom().contains(k) ==> m[k] == before[k])
            }
        }),
    decreases keys.len(),
{
    if keys.len() > 0 {
        let rest = keys.drop_last();
        let key = keys.last();
        let prior = upserts(rest, before, now);
        let all = upserts(keys, before, now);
        assert forall|i: int| 0 <= i < rest.len() implies now.dom().contains(#[trigger] rest[i]) by {
            assert(rest[i] == keys[i]);
        }
        lemma_after_upserts(rest, before, now, start, k);
        lemma_after_upserts(rest, before, now, start, key);
        if all.len() > prior.len() {
            assert(all.drop_last() =~= prior);
        }
        if holds(rest, k) {
            let i = choose|i: int| 0 <= i < rest.len() && rest[i] == k;
            assert(keys[i] == k);
        }
        assert(keys[keys.len() - 1] == key);
        if holds(keys, k) && k != key {
            let i = choose|i: int| 0 <= i < keys.len() && keys[i] == k;
            assert(rest[i] == k);
        }
    }
}

proof fn lemma_after_removals(
    start: Map<Seq<char>, TerminalView>,
    keys: Seq<Seq<char>>,
    now: Map<Seq<char>, TerminalView>,
    k: Seq<char>,
)
    ensures
        ({
            let m = after_changes(start, removals(keys, now));
            if holds(keys, k) && !now.dom().contains(k) {
                !m.dom().contains(k)
            } else {
                m.dom().contains(k) == start.dom().contains(k) && (start.dom().contains(k) ==> m[k] == start[k])
            }
        }),
    decreases keys.len(),
{
    if keys.len() > 0 {
        let rest = keys.drop_last();
        let key = keys.last();
        let prior = removals(rest, now);
        let all = removals(keys, now);
        lemma_after_removals(start, rest, now, k);
        if all.len() > prior.len() {
            assert(all.drop_last() =~= prior);
        }
        if holds(rest, k) {
            let i = choose|i: int| 0 <= i < rest.len() && rest[i] == k;
            assert(keys[i] == k);
        }
        assert(keys[keys.len() - 1] == key);
        if holds(keys, k) && k != key {
            let i = choose|i: int| 0 <= i < keys.len() && keys[i] == k;
            assert(rest[i] == k);
        }
    }
}

proof fn lemma_after_both(m: Map<Seq<char>, TerminalView>, a: Seq<(Seq<char>, OpView)>, b: Seq<(Seq<char>, OpView)>)
    ensures
        after_changes(m, a + b) == after_changes(after_changes(m, a), b),
    decreases b.len(),
{
    if b.len() == 0 {
        assert(a + b =~= a);
    } else {
        assert((a + b).drop_last() =~= a + b.drop_last());
        assert((a + b).last() == b.last());
        lemma_after_both(m, a, b.drop_last());
    }
}

/// Whoever knew the terminals before and follows the changes knows them now.
pub proof fn law_changes_lead_to_the_present(
    before_keys: Seq<Seq<char>>,
    before: Map<Seq<char>, TerminalView>,
    now_keys: Seq<Seq<char>>,
    now: Map<Seq<char>, TerminalView>,
)
    requires
        lists(before_keys, before),
        lists(now_keys, now),
    ensures
        after_changes(before, upserts(now_keys, before, now) + removals(before_keys, now)) == now,
{
    let a = upserts(now_keys, before, now);
    let b = removals(before_keys, now);
    lemma_after_both(before, a, b);
    let mid = after_changes(before, a);
    let end = after_changes(mid, b);
    assert forall|i: int| 0 <= i < now_keys.len() implies now.dom().contains(#[trigger] now_keys[i]) by {
        assert(holds(now_keys, now_keys[i]));
    }
    assert forall|k: Seq<char>| #[trigger] end.dom().contains(k) == now.dom().contains(k) by {
        lemma_after_upserts(now_keys, before, now, before, k);
        lemma_after_removals(mid, before_keys, now, k);
        assert(now.dom().contains(k) <==> holds(now_keys, k));
        assert(before.dom().contains(k) <==> holds(before_keys, k));
    }
    assert forall|k: Seq<char>| #[trigger] now.dom().contains(k) implies end[k] == now[k] by {
        lemma_after_upserts(now_keys, before, now, before, k);
        lemma_after_removals(mid, before_keys, now, k);
    }
    assert(end =~= now);
}

/// Terminals that stay as they are make no changes.
pub proof fn law_unchanged_terminals_are_silent(keys: Seq<Seq<char>>, m: Map<Seq<char>, TerminalView>)
    requires
        lists(keys, m),
    ensures
        upserts(keys, m, m) + removals(keys, m) == Seq::<(Seq<char>, OpView)>::empty(),
{
    lemma_silent(keys, m, keys);
}

proof fn lemma_silent(keys: Seq<Seq<char>>, m: Map<Seq<char>, TerminalView>, all: Seq<Seq<char>>)
    requires
        lists(all, m),
        forall|i: int| 0 <= i < keys.len() ==> holds(all, #[trigger] keys[i]),
    ensures
        upserts(keys, m, m) + removals(keys, m) == Seq::<(Seq<char>, OpView)>::empty(),
        upserts(keys, m, m).len() == 0,
        removals(keys, m).len() == 0,
    decreases keys.len(),
{
    if keys.len() > 0 {
        let rest = keys.drop_last();
        assert forall|i: int| 0 <= i < rest.len() implies holds(all, #[trigger] rest[i]) by {
            assert(rest[i] == keys[i]);
        }
        lemma_silent(rest, m, all);
        assert(holds(all, keys[keys.len() - 1]));
        assert(m.dom().contains(keys.last()));
    }
    assert(upserts(keys, m, m) + removals(keys, m) =~= Seq::<(Seq<char>, OpView)>::empty());
}

/// A directory that a repository lies in, by its parts.
#[derive(Debug, PartialEq, Eq)]
pub struct OwnedRoot {
    /// Which repository it is of.
    pub repo: usize,
    pub parts: Vec<String>,
}

/// Whether a directory lies in another.
pub open spec fn lies_in(directory: Seq<Seq<char>>, root: Seq<Seq<char>>) -> bool {
    root.len() <= directory.len() && directory.take(root.len() as int) == root
}

/// The last of the deepest roots that a directory lies in.
pub open spec fn deepest_root(roots: Seq<OwnedRoot>, directory: Seq<Seq<char>>) -> Option<int>
    decreases roots.len(),
{
    if roots.len() == 0 {
        None
    } else {
        let before = deepest_root(roots.drop_last(), directory);
        if lies_in(directory, strs(roots.last().parts@)) {
            match before {
                Some(i) => if roots.last().parts@.len() >= roots[i].parts@.len() {
                    Some(roots.len() - 1)
                } else {
                    Some(i)
                },
                None => Some(roots.len() - 1),
            }
        } else {
            before
        }
    }
}

fn directory_in(directory: &Vec<String>, root: &Vec<String>) -> (r: bool)
    ensures
        r == lies_in(strs(directory@), strs(root@)),
{
    assert(strs(directory@).len() == directory@.len());
    assert(strs(root@).len() == root@.len());
    if root.len() > directory.len() {
        return false;
    }
    let ghost front = strs(directory@).take(root@.len() as int);
    let mut i: usize = 0;
    while i < root.len()
        invariant
            i <= root@.len() <= directory@.len(),
            front == strs(directory@).take(root@.len() as int),
            forall|k: int| 0 <= k < i ==> (#[trigger] directory@[k])@ == root@[k]@,
        decreases root.len() - i,
    {
        if !str_eq(directory[i].as_str(), root[i].as_str()) {
            assert(front[i as int] != strs(root@)[i as int]);
            return false;
        }
        i = i + 1;
    }
    assert(front =~= strs(root@));
    true
}

/// The repository that a terminal's directory belongs to: that of the deepest
/// root it lies in.
pub fn owner_of_directory(roots: &Vec<OwnedRoot>, directory: &Vec<String>) -> (r: Option<usize>)
    ensures
        match deepest_root(roots@, strs(directory@)) {
            Some(i) => 0 <= i < roots@.len() && r == Some(roots@[i].repo),
            None => r is None,
        },
{
    let mut best: Option<usize> = None;
    let mut i: usize = 0;
    while i < roots.len()
        invariant
            i <= roots@.len(),
            match best {
                Some(b) => b < i && deepest_root(roots@.take(i as int), strs(directory@)) == Some(b as int),
                None => deepest_root(roots@.take(i as int), strs(directory@)) is None,
            },
        decreases roots.len() - i,
    {
        assert(roots@.take(i + 1).drop_last() =~= roots@.take(i as int));
        assert(roots@.take(i + 1).last() == roots@[i as int]);
        if directory_in(directory, &roots[i].parts) {
            best = match best {
                Some(b) => {
                    assert(roots@.take(i + 1)[b as int] == roots@[b as int]);
                    if roots[i].parts.len() >= roots[b].parts.len() {
                        Some(i)
                    } else {
                        Some(b)
                    }
                },
                None => Some(i),
            };
        }
        i = i + 1;
    }
    assert(roots@.take(roots@.len() as int) =~= roots@);
    match best {
        Some(b) => Some(roots[b].repo),
        None => None,
    }
}

/// A terminal in a nested repository belongs to that one alone.
pub proof fn law_the_deepest_root_owns(roots: Seq<OwnedRoot>, directory: Seq<Seq<char>>, i: int)
    requires
        0 <= i < roots.len(),
        lies_in(directory, strs(roots[i].parts@)),
    ensures
        deepest_root(roots, directory) matches Some(b) && 0 <= b < roots.len() && lies_in(directory, strs(roots[b].parts@))
            && roots[b].parts@.len() >= roots[i].parts@.len(),
    decreases roots.len(),
{
    let rest = roots.drop_last();
    lemma_deepest(rest, directory);
    if i < roots.len() - 1 {
        law_the_deepest_root_owns(rest, directory, i);
    }
}

proof fn lemma_deepest(roots: Seq<OwnedRoot>, directory: Seq<Seq<char>>)
    ensures
        deepest_root(roots, directory) matches Some(b) ==> 0 <= b < roots.len() && lies_in(
            directory,
            strs(roots[b].parts@),
        ),
    decreases roots.len(),
{
    if roots.len() > 0 {
        lemma_deepest(roots.drop_last(), directory);
    }
}

/// A terminal that a pool lists, and the directory it works in, by its parts.
#[derive(Debug, PartialEq, Eq)]
pub struct FoundTerminal {
    pub id: String,
    pub directory: Vec<String>,
    pub terminal: ManagedTerminal,
}

/// The repository that a directory belongs to.
pub open spec fn directory_owner(roots: Seq<OwnedRoot>, directory: Seq<Seq<char>>) -> Option<usize> {
    match deepest_root(roots, directory) {
        Some(i) => Some(roots[i].repo),
        None => None,
    }
}

/// Whether a terminal belongs to a repository.
pub open spec fn belongs_to(found: FoundTerminal, roots: Seq<OwnedRoot>, repo: int) -> bool {
    directory_owner(roots, strs(found.directory@)) matches Some(owner) && owner == repo
}

/// The terminals of one repository.
pub open spec fn attributed(found: Seq<FoundTerminal>, roots: Seq<OwnedRoot>, repo: int) -> Map<Seq<char>, TerminalView>
    decreases found.len(),
{
    if found.len() == 0 {
        Map::empty()
    } else {
        let before = attributed(found.drop_last(), roots, repo);
        let last = found.last();
        if belongs_to(last, roots, repo) {
            before.insert(last.id@, last.terminal@)
        } else {
            before
        }
    }
}

/// The terminals that lie in one repository, by their ids.
pub fn terminals_of_repository(found: &Vec<FoundTerminal>, roots: &Vec<OwnedRoot>, repo: usize) -> (r: OrderedMap<ManagedTerminal>)
    ensures
        terminal_map(r@) == attributed(found@, roots@, repo as int),
{
    let mut r: OrderedMap<ManagedTerminal> = OrderedMap::new();
    let mut i: usize = 0;
    assert(terminal_map(r@) =~= attributed(found@.take(0), roots@, repo as int));
    while i < found.len()
        invariant
            i <= found@.len(),
            terminal_map(r@) == attributed(found@.take(i as int), roots@, repo as int),
        decreases found.len() - i,
    {
        let f = &found[i];
        assert(found@.take(i + 1).drop_last() =~= found@.take(i as int));
        assert(found@.take(i + 1).last() == *f);
        match owner_of_directory(roots, &f.directory) {
            Some(owner) => {
                if owner == repo {
                    let ghost before = r@;
                    r.insert(f.id.clone(), f.terminal.copy());
                    assert(terminal_map(r@) =~= terminal_map(before).insert(f.id@, f.terminal@));
                }
            },
            None => {},
        }
        i = i + 1;
    }
    assert(found@.take(found@.len() as int) =~= found@);
    r
}

/// What is reported of one repository once its terminals were looked at: what
/// they are now, and what changed.
pub fn refresh_managed_terminals(
    previous: &Option<OrderedMap<ManagedTerminal>>,
    found: &Vec<FoundTerminal>,
    roots: &Vec<OwnedRoot>,
    repo: usize,
) -> (r: (OrderedMap<ManagedTerminal>, Vec<TerminalChange>))
    ensures
        terminal_map(r.0@) == attributed(found@, roots@, repo as int),
        change_views(r.1@) == upserts(r.0.keys(), known_terminals(*previous), attributed(found@, roots@, repo as int))
            + removals(known_keys(*previous), attributed(found@, roots@, repo as int)),
{
    let current = terminals_of_repository(found, roots, repo);
    let changes = managed_terminal_changes(previous, &current);
    (current, changes)
}

proof fn lemma_attributed(found: Seq<FoundTerminal>, roots: Seq<OwnedRoot>, repo: int, id: Seq<char>)
    requires
        attributed(found, roots, repo).dom().contains(id),
    ensures
        exists|k: int|
            0 <= k < found.len() && (#[trigger] found[k]).id@ == id && belongs_to(found[k], roots, repo),
    decreases found.len(),
{
    let rest = found.drop_last();
    let last = found.last();
    if belongs_to(last, roots, repo) && last.id@ == id {
        assert(found[found.len() - 1].id@ == id);
    } else {
        lemma_attributed(rest, roots, repo, id);
        let k = choose|k: int|
            0 <= k < rest.len() && (#[trigger] rest[k]).id@ == id && belongs_to(rest[k], roots, repo);
        assert(found[k] == rest[k]);
    }
}

/// A terminal is shown by one repository at most, so that its exit is not
/// reported twice.
pub proof fn law_one_repository_shows_a_terminal(
    found: Seq<FoundTerminal>,
    roots: Seq<OwnedRoot>,
    a: int,
    b: int,
    id: Seq<char>,
)
    requires
        forall|i: int, j: int|
            0 <= i < found.len() && 0 <= j < found.len() && (#[trigger] found[i]).id@ == (#[trigger] found[j]).id@ ==> i == j,
        attributed(found, roots, a).dom().contains(id),
        attributed(found, roots, b).dom().contains(id),
    ensures
        a == b,
{
    lemma_attributed(found, roots, a, id);
    lemma_attributed(found, roots, b, id);
    let i = choose|k: int|
        0 <= k < found.len() && (#[trigger] found[k]).id@ == id && belongs_to(found[k], roots, a);
    let j = choose|k: int|
        0 <= k < found.len() && (#[trigger] found[k]).id@ == id && belongs_to(found[k], roots, b);
    assert(found[i].id@ == found[j].id@);
}

} // verus!
