//! Sets of strings and maps keyed by strings, held in string order.
use vstd::prelude::*;

use crate::text::{
    holds, lex_lt, lemma_lex_asymmetric, lemma_lex_irreflexive, lemma_lex_total, lemma_lex_transitive, str_eq, str_lt, strs,
};

verus! {

/// Each string sorts before every later one; so none occurs twice.
pub open spec fn strictly_sorted(s: Seq<Seq<char>>) -> bool {
    forall|i: int, j: int| 0 <= i < j < s.len() ==> lex_lt(#[trigger] s[i], #[trigger] s[j])
}

/// `r` lists exactly the strings of `s`, each once, in order.
pub open spec fn sorted_set_of(r: Seq<Seq<char>>, s: Seq<Seq<char>>) -> bool {
    &&& strictly_sorted(r)
    &&& forall|x: Seq<char>| #[trigger] holds(r, x) <==> holds(s, x)
}

/// There is only one sorted listing of a collection of strings.
pub proof fn lemma_sorted_set_unique(a: Seq<Seq<char>>, b: Seq<Seq<char>>, s: Seq<Seq<char>>)
    requires
        sorted_set_of(a, s),
        sorted_set_of(b, s),
    ensures
        a == b,
{
    lemma_sorted_prefix(a, b, s, a.len() as int);
    lemma_sorted_prefix(b, a, s, b.len() as int);
    assert(a =~= b);
}

/// The strings of `s`, each once, in order.
pub open spec fn sorted_unique(s: Seq<Seq<char>>) -> Seq<Seq<char>> {
    choose|r: Seq<Seq<char>>| sorted_set_of(r, s)
}

/// A sorted listing is the sorted listing.
pub proof fn lemma_sorted_unique(r: Seq<Seq<char>>, s: Seq<Seq<char>>)
    requires
        sorted_set_of(r, s),
    ensures
        r == sorted_unique(s),
{
    lemma_sorted_set_unique(r, sorted_unique(s), s);
}

proof fn lemma_sorted_prefix(a: Seq<Seq<char>>, b: Seq<Seq<char>>, s: Seq<Seq<char>>, n: int)
    requires
        sorted_set_of(a, s),
        sorted_set_of(b, s),
        0 <= n <= a.len(),
    ensures
        n <= b.len(),
        forall|i: int| 0 <= i < n ==> a[i] == b[i],
    decreases n,
{
    if n > 0 {
        lemma_sorted_prefix(a, b, s, n - 1);
        let x = a[n - 1];
        assert(holds(a, x));
        assert(holds(b, x));
        let j = choose|j: int| 0 <= j < b.len() && #[trigger] b[j] == x;
        lemma_lex_irreflexive(x);
        if j < n - 1 {
            assert(a[j] == b[j]);
            assert(false);
        }
        if j > n - 1 {
            let y = b[n - 1];
            assert(lex_lt(y, x));
            assert(holds(b, y));
            assert(holds(a, y));
            let i = choose|i: int| 0 <= i < a.len() && #[trigger] a[i] == y;
            lemma_lex_asymmetric(y, x);
            if i < n - 1 {
                assert(b[i] == y);
                lemma_lex_irreflexive(y);
            }
            assert(false);
        }
    }
}

/// `q` lists what `r` lists, and one string more, in order.
spec fn with_string(q: Seq<Seq<char>>, r: Seq<Seq<char>>, x: Seq<char>) -> bool {
    &&& strictly_sorted(q)
    &&& forall|y: Seq<char>| #[trigger] holds(q, y) <==> holds(r, y) || y == x
}

proof fn lemma_insert_string(r: Seq<Seq<char>>, x: Seq<char>)
    requires
        strictly_sorted(r),
        !holds(r, x),
    ensures
        exists|q: Seq<Seq<char>>| with_string(q, r, x),
    decreases r.len(),
{
    if r.len() == 0 {
        let q = seq![x];
        assert(q[0] == x);
        assert(with_string(q, r, x));
    } else {
        let front = r.drop_last();
        let l = r.last();
        assert(r[r.len() - 1] == l);
        assert forall|y: Seq<char>| #[trigger] holds(r, y) <==> holds(front, y) || y == l by {
            if holds(front, y) {
                let i = choose|i: int| 0 <= i < front.len() && #[trigger] front[i] == y;
                assert(r[i] == y);
            }
            if holds(r, y) && y != l {
                let i = choose|i: int| 0 <= i < r.len() && #[trigger] r[i] == y;
                assert(front[i] == y);
            }
        }
        lemma_lex_total(l, x);
        if lex_lt(l, x) {
            let q = r.push(x);
            assert forall|i: int, j: int| 0 <= i < j < q.len() implies lex_lt(#[trigger] q[i], #[trigger] q[j]) by {
                if j < r.len() {
                    assert(lex_lt(r[i], r[j]));
                } else if i < r.len() - 1 {
                    assert(lex_lt(r[i], r[r.len() - 1]));
                    lemma_lex_transitive(r[i], l, x);
                }
            }
            assert forall|y: Seq<char>| #[trigger] holds(q, y) <==> holds(r, y) || y == x by {
                assert(q[r.len() as int] == x);
                if holds(r, y) {
                    let i = choose|i: int| 0 <= i < r.len() && #[trigger] r[i] == y;
                    assert(q[i] == y);
                }
                if holds(q, y) && y != x {
                    let i = choose|i: int| 0 <= i < q.len() && #[trigger] q[i] == y;
                    assert(r[i] == y);
                }
            }
            assert(with_string(q, r, x));
        } else {
            assert(holds(r, l));
            assert(!holds(front, x));
            lemma_insert_string(front, x);
            let inner = choose|q: Seq<Seq<char>>| with_string(q, front, x);
            let q = inner.push(l);
            assert forall|i: int, j: int| 0 <= i < j < q.len() implies lex_lt(#[trigger] q[i], #[trigger] q[j]) by {
                if j < inner.len() {
                    assert(lex_lt(inner[i], inner[j]));
                } else {
                    assert(holds(inner, inner[i]));
                    if inner[i] != x {
                        let k = choose|k: int| 0 <= k < front.len() && #[trigger] front[k] == inner[i];
                        assert(lex_lt(r[k], r[r.len() - 1]));
                    }
                }
            }
            assert forall|y: Seq<char>| #[trigger] holds(q, y) <==> holds(r, y) || y == x by {
                assert(q[inner.len() as int] == l);
                if holds(inner, y) {
                    let i = choose|i: int| 0 <= i < inner.len() && #[trigger] inner[i] == y;
                    assert(q[i] == y);
                }
                if holds(q, y) && y != l {
                    let i = choose|i: int| 0 <= i < q.len() && #[trigger] q[i] == y;
                    assert(inner[i] == y);
                }
            }
            assert(with_string(q, r, x));
        }
    }
}

proof fn lemma_sorted_listing(s: Seq<Seq<char>>)
    ensures
        exists|r: Seq<Seq<char>>| sorted_set_of(r, s),
    decreases s.len(),
{
    if s.len() == 0 {
        assert(sorted_set_of(s, s));
    } else {
        let front = s.drop_last();
        let x = s.last();
        lemma_sorted_listing(front);
        let r = choose|r: Seq<Seq<char>>| sorted_set_of(r, front);
        assert forall|y: Seq<char>| #[trigger] holds(s, y) <==> holds(front, y) || y == x by {
            assert(s[s.len() - 1] == x);
            if holds(front, y) {
                let i = choose|i: int| 0 <= i < front.len() && #[trigger] front[i] == y;
                assert(s[i] == y);
            }
            if holds(s, y) && y != x {
                let i = choose|i: int| 0 <= i < s.len() && #[trigger] s[i] == y;
                assert(front[i] == y);
            }
        }
        if holds(r, x) {
            assert(sorted_set_of(r, s));
        } else {
            lemma_insert_string(r, x);
            let q = choose|q: Seq<Seq<char>>| with_string(q, r, x);
            assert(sorted_set_of(q, s));
        }
    }
}

/// Every collection of strings has a sorted listing: it lists exactly its
/// strings, each once.
pub proof fn lemma_sorted_unique_exists(s: Seq<Seq<char>>)
    ensures
        sorted_set_of(sorted_unique(s), s),
{
    lemma_sorted_listing(s);
}

/// A strictly sorted list repeats nothing.
pub proof fn lemma_sorted_no_repeats(s: Seq<Seq<char>>)
    requires
        strictly_sorted(s),
    ensures
        s.no_duplicates(),
{
    assert forall|i: int, j: int| 0 <= i < s.len() && 0 <= j < s.len() && i != j implies s[i] != s[j] by {
        if i < j {
            lemma_lex_asymmetric(s[i], s[j]);
        } else {
            lemma_lex_asymmetric(s[j], s[i]);
        }
    }
}

/// A set of strings, in order.
#[derive(Debug, PartialEq, Eq)]
pub struct OrderedSet {
    list: Vec<String>,
}

impl View for OrderedSet {
    type V = Set<Seq<char>>;

    open spec fn view(&self) -> Set<Seq<char>> {
        self.items().to_set()
    }
}

impl OrderedSet {
    /// The strings in order.
    pub closed spec fn items(&self) -> Seq<Seq<char>> {
        strs(self.list@)
    }

    #[verifier::type_invariant]
    spec fn well_formed(self) -> bool {
        strictly_sorted(strs(self.list@))
    }

    pub fn new() -> (r: Self)
        ensures
            r.items() == Seq::<Seq<char>>::empty(),
            r@ == Set::<Seq<char>>::empty(),
    {
        let r = OrderedSet { list: Vec::new() };
        assert(r.items() =~= Seq::<Seq<char>>::empty());
        assert(r@ =~= Set::<Seq<char>>::empty());
        r
    }

    pub fn len(&self) -> (r: usize)
        ensures
            r == self.items().len(),
            r == self@.len(),
            strictly_sorted(self.items()),
    {
        proof {
            use_type_invariant(self);
            lemma_sorted_no_repeats(self.items());
            self.items().unique_seq_to_set();
        }
        self.list.len()
    }

    pub fn is_empty(&self) -> (r: bool)
        ensures
            r == (self.items().len() == 0),
            r == (self@ == Set::<Seq<char>>::empty()),
    {
        let r = self.list.len() == 0;
        proof {
            if r {
                assert(self@ =~= Set::<Seq<char>>::empty());
            } else {
                assert(self@.contains(self.items()[0]));
            }
        }
        r
    }

    pub fn item(&self, i: usize) -> (r: &String)
        requires
            i < self.items().len(),
        ensures
            r@ == self.items()[i as int],
    {
        &self.list[i]
    }

    /// Where `s` stands, or where it belongs.
    fn position(&self, s: &str) -> (r: (bool, usize))
        ensures
            r.1 <= self.list@.len(),
            r.0 == self@.contains(s@),
            r.0 ==> r.1 < self.list@.len() && self.items()[r.1 as int] == s@,
            !r.0 ==> forall|k: int|
                0 <= k < self.items().len() ==> (if k < r.1 {
                    lex_lt(#[trigger] self.items()[k], s@)
                } else {
                    lex_lt(s@, self.items()[k])
                }),
    {
        proof {
            use_type_invariant(self);
        }
        let mut i: usize = 0;
        while i < self.list.len()
            invariant
                i <= self.list@.len(),
                strictly_sorted(self.items()),
                self.items() == strs(self.list@),
                forall|k: int| 0 <= k < i ==> lex_lt(#[trigger] self.items()[k], s@),
            decreases self.list.len() - i,
        {
            if str_eq(self.list[i].as_str(), s) {
                assert(self.items()[i as int] == s@);
                return (true, i);
            }
            if str_lt(s, self.list[i].as_str()) {
                proof {
                    assert forall|k: int| i <= k < self.items().len() implies lex_lt(
                        s@,
                        #[trigger] self.items()[k],
                    ) by {
                        if k > i {
                            lemma_lex_transitive(s@, self.items()[i as int], self.items()[k]);
                        }
                    }
                    assert forall|k: int| 0 <= k < self.items().len() implies #[trigger] self.items()[k] != s@ by {
                        if k < i {
                            lemma_lex_asymmetric(self.items()[k], s@);
                        } else {
                            lemma_lex_asymmetric(s@, self.items()[k]);
                        }
                    }
                }
                return (false, i);
            }
            proof {
                lemma_lex_total(s@, self.items()[i as int]);
            }
            i = i + 1;
        }
        proof {
            assert forall|k: int| 0 <= k < self.items().len() implies #[trigger] self.items()[k] != s@ by {
                lemma_lex_asymmetric(self.items()[k], s@);
            }
        }
        (false, i)
    }

    pub fn contains(&self, s: &str) -> (r: bool)
        ensures
            r == self@.contains(s@),
            r == holds(self.items(), s@),
    {
        let (found, at) = self.position(s);
        proof {
            if found {
                assert(self.items()[at as int] == s@);
            } else if holds(self.items(), s@) {
                let k = choose|k: int| 0 <= k < self.items().len() && #[trigger] self.items()[k] == s@;
                assert(self@.contains(self.items()[k]));
            }
        }
        found
    }

    /// Adds `s`; tells whether it was not there before.
    pub fn insert(&mut self, s: String) -> (added: bool)
        ensures
            final(self)@ == old(self)@.insert(s@),
            added == !old(self)@.contains(s@),
            strictly_sorted(final(self).items()),
    {
        proof {
            use_type_invariant(&*self);
        }
        let (found, at) = self.position(s.as_str());
        if found {
            assert(self@ =~= self@.insert(s@));
            false
        } else {
            let ghost before = self.items();
            let mut list: Vec<String> = Vec::new();
            std::mem::swap(&mut list, &mut self.list);
            let ghost held = list@;
            list.insert(at, s);
            assert(strs(list@) =~= before.insert(at as int, s@));
            proof {
                let after = strs(list@);
                assert forall|i: int, j: int| 0 <= i < j < after.len() implies lex_lt(
                    #[trigger] after[i],
                    #[trigger] after[j],
                ) by {
                    if i < at && j < at {
                        assert(after[i] == before[i] && after[j] == before[j]);
                    } else if i < at && j == at {
                        assert(after[i] == before[i]);
                    } else if i < at {
                        assert(after[i] == before[i] && after[j] == before[j - 1]);
                    } else if i == at {
                        assert(after[j] == before[j - 1]);
                    } else {
                        assert(after[i] == before[i - 1] && after[j] == before[j - 1]);
                    }
                }
                assert forall|x: Seq<char>| after.contains(x) <==> before.contains(x) || x == s@ by {
                    if after.contains(x) {
                        let k = choose|k: int| 0 <= k < after.len() && after[k] == x;
                        if k < at {
                            assert(before[k] == x);
                        } else if k > at {
                            assert(before[k - 1] == x);
                        }
                    }
                    if before.contains(x) {
                        let k = choose|k: int| 0 <= k < before.len() && before[k] == x;
                        if k < at {
                            assert(after[k] == x);
                        } else {
                            assert(after[k + 1] == x);
                        }
                    }
                    if x == s@ {
                        assert(after[at as int] == x);
                    }
                }
            }
            self.list = list;
            assert(self@ =~= old(self)@.insert(s@));
            true
        }
    }

    /// The set of the strings of a list.
    pub fn from_strs(v: &Vec<String>) -> (r: Self)
        ensures
            r@ == strs(v@).to_set(),
            sorted_set_of(r.items(), strs(v@)),
    {
        let mut r = OrderedSet::new();
        let mut i: usize = 0;
        assert(strs(v@).take(0).to_set() =~= Set::<Seq<char>>::empty());
        while i < v.len()
            invariant
                i <= v@.len(),
                r@ == strs(v@).take(i as int).to_set(),
            decreases v.len() - i,
        {
            let _ = r.insert(v[i].clone());
            proof {
                let a = strs(v@).take(i as int);
                let b = strs(v@).take(i + 1);
                assert(b =~= a.push(v@[i as int]@));
                assert forall|x: Seq<char>| b.to_set().contains(x) <==> a.to_set().insert(
                    v@[i as int]@,
                ).contains(x) by {
                    if b.contains(x) {
                        let k = choose|k: int| 0 <= k < b.len() && b[k] == x;
                        if k < i {
                            assert(a[k] == x);
                        }
                    }
                    if a.contains(x) {
                        let k = choose|k: int| 0 <= k < a.len() && a[k] == x;
                        assert(b[k] == x);
                    }
                    if x == v@[i as int]@ {
                        assert(b[i as int] == x);
                    }
                }
                assert(b.to_set() =~= a.to_set().insert(v@[i as int]@));
            }
            i = i + 1;
        }
        assert(strs(v@).take(v@.len() as int) =~= strs(v@));
        let _n: usize = r.len();
        proof {
            lemma_holds_is_contains(r.items(), strs(v@));
        }
        r
    }

    /// The strings as a list, in order.
    pub fn to_vec(&self) -> (r: Vec<String>)
        ensures
            strs(r@) == self.items(),
            strictly_sorted(strs(r@)),
    {
        proof {
            use_type_invariant(self);
        }
        let r = crate::text::strs_clone(&self.list);
        r
    }

    pub fn copy(&self) -> (r: Self)
        ensures
            r@ == self@,
            r.items() == self.items(),
    {
        proof {
            use_type_invariant(self);
        }
        OrderedSet { list: crate::text::strs_clone(&self.list) }
    }

    /// Whether every string of `self` is one of `other`'s.
    pub fn is_subset(&self, other: &OrderedSet) -> (r: bool)
        ensures
            r == self@.subset_of(other@),
    {
        let mut i: usize = 0;
        while i < self.list.len()
            invariant
                i <= self.list@.len(),
                self.items() == strs(self.list@),
                forall|k: int| 0 <= k < i ==> other@.contains(#[trigger] self.items()[k]),
            decreases self.list.len() - i,
        {
            if !other.contains(self.list[i].as_str()) {
                assert(self@.contains(self.items()[i as int]));
                return false;
            }
            i = i + 1;
        }
        assert forall|x: Seq<char>| self@.contains(x) implies other@.contains(x) by {
            let k = choose|k: int| 0 <= k < self.items().len() && self.items()[k] == x;
            assert(other@.contains(self.items()[k]));
        }
        true
    }
}

proof fn lemma_holds_is_contains(a: Seq<Seq<char>>, b: Seq<Seq<char>>)
    requires
        a.to_set() == b.to_set(),
    ensures
        forall|x: Seq<char>| #[trigger] holds(a, x) <==> holds(b, x),
{
    assert forall|x: Seq<char>| #[trigger] holds(a, x) <==> holds(b, x) by {
        if holds(a, x) {
            assert(a.contains(x));
            assert(a.to_set().contains(x));
            assert(b.to_set().contains(x));
            let k = choose|k: int| 0 <= k < b.len() && b[k] == x;
            assert(b[k] == x);
        }
        if holds(b, x) {
            assert(b.contains(x));
            assert(b.to_set().contains(x));
            assert(a.to_set().contains(x));
            let k = choose|k: int| 0 <= k < a.len() && a[k] == x;
            assert(a[k] == x);
        }
    }
}

/// Sorts the strings and drops repeats.
pub fn sort_dedup(v: &Vec<String>) -> (r: Vec<String>)
    ensures
        strs(r@) == sorted_unique(strs(v@)),
        sorted_set_of(strs(r@), strs(v@)),
{
    let r = OrderedSet::from_strs(v).to_vec();
    proof {
        lemma_sorted_unique(strs(r@), strs(v@));
    }
    r
}

/// How many texts at the front sort no later than `x`.
pub open spec fn lex_position(s: Seq<Seq<char>>, x: Seq<char>) -> int
    decreases s.len(),
{
    if s.len() == 0 {
        0
    } else if !lex_lt(x, s.last()) {
        s.len() as int
    } else {
        lex_position(s.drop_last(), x)
    }
}

/// The texts in order, repeats kept.
pub open spec fn lex_sort(s: Seq<Seq<char>>) -> Seq<Seq<char>>
    decreases s.len(),
{
    if s.len() == 0 {
        s
    } else {
        let front = lex_sort(s.drop_last());
        front.insert(lex_position(front, s.last()), s.last())
    }
}

proof fn lemma_lex_position(s: Seq<Seq<char>>, x: Seq<char>)
    ensures
        0 <= lex_position(s, x) <= s.len(),
        lex_position(s, x) > 0 ==> !lex_lt(x, s[lex_position(s, x) - 1]),
        forall|k: int| lex_position(s, x) <= k < s.len() ==> lex_lt(x, #[trigger] s[k]),
    decreases s.len(),
{
    if s.len() > 0 && lex_lt(x, s.last()) {
        let front = s.drop_last();
        lemma_lex_position(front, x);
        assert forall|k: int| lex_position(s, x) <= k < s.len() implies lex_lt(x, #[trigger] s[k]) by {
            if k < s.len() - 1 {
                assert(s[k] == front[k]);
            }
        }
    }
}

/// No text stands behind one that it sorts before.
pub open spec fn lex_ordered(s: Seq<Seq<char>>) -> bool {
    forall|i: int, j: int| 0 <= i < j < s.len() ==> !lex_lt(#[trigger] s[j], #[trigger] s[i])
}

/// Sorting texts orders them and keeps each as often as it occurs.
pub proof fn lemma_lex_sort(s: Seq<Seq<char>>)
    ensures
        lex_ordered(lex_sort(s)),
        lex_sort(s).len() == s.len(),
        lex_sort(s).to_multiset() == s.to_multiset(),
    decreases s.len(),
{
    broadcast use vstd::seq_lib::group_to_multiset_ensures;

    if s.len() > 0 {
        let front = lex_sort(s.drop_last());
        let x = s.last();
        lemma_lex_sort(s.drop_last());
        lemma_lex_position(front, x);
        let at = lex_position(front, x);
        let r = front.insert(at, x);
        assert forall|i: int, j: int| 0 <= i < j < r.len() implies !lex_lt(#[trigger] r[j], #[trigger] r[i]) by {
            if j < at {
            } else if j == at {
                if i < at - 1 && lex_lt(x, front[i]) {
                    lemma_lex_total(front[i], front[at - 1]);
                    if lex_lt(front[i], front[at - 1]) {
                        lemma_lex_transitive(x, front[i], front[at - 1]);
                    }
                }
            } else if i == at {
                assert(r[j] == front[j - 1]);
                lemma_lex_asymmetric(x, front[j - 1]);
            } else if i < at {
                assert(r[i] == front[i] && r[j] == front[j - 1]);
            } else {
                assert(r[i] == front[i - 1] && r[j] == front[j - 1]);
            }
        }
        assert(r =~= front.take(at).push(x) + front.skip(at));
        assert(front =~= front.take(at) + front.skip(at));
        vstd::seq_lib::lemma_multiset_commutative(front.take(at), front.skip(at));
        vstd::seq_lib::lemma_multiset_commutative(front.take(at).push(x), front.skip(at));
        assert(s =~= s.drop_last().push(x));
        assert(r.to_multiset() =~= s.to_multiset());
    }
}

/// Sorts the strings; repeats stay.
pub fn sort_strs(v: &Vec<String>) -> (r: Vec<String>)
    ensures
        strs(r@) == lex_sort(strs(v@)),
{
    let mut r: Vec<String> = Vec::new();
    let mut i: usize = 0;
    assert(strs(r@) =~= lex_sort(strs(v@).take(0)));
    while i < v.len()
        invariant
            i <= v@.len(),
            strs(r@) == lex_sort(strs(v@).take(i as int)),
        decreases v.len() - i,
    {
        let ghost front = strs(r@);
        let x = v[i].clone();
        let mut at: usize = r.len();
        assert(front.take(at as int) =~= front);
        while at > 0 && str_lt(x.as_str(), r[at - 1].as_str())
            invariant
                front == strs(r@),
                at <= front.len(),
                lex_position(front, x@) == lex_position(front.take(at as int), x@),
            decreases at,
        {
            assert(front.take(at as int).drop_last() =~= front.take(at - 1));
            assert(front.take(at as int).last() == r@[at - 1]@);
            at = at - 1;
        }
        proof {
            if at > 0 {
                assert(front.take(at as int).last() == r@[at - 1]@);
            }
        }
        assert(lex_position(front, x@) == at);
        r.insert(at, x);
        assert(strs(r@) =~= front.insert(at as int, x@));
        assert(strs(v@).take(i + 1).drop_last() =~= strs(v@).take(i as int));
        i = i + 1;
    }
    assert(strs(v@).take(v@.len() as int) =~= strs(v@));
    r
}

/// The keys of a list of entries.
pub open spec fn entry_keys<V>(e: Seq<(String, V)>) -> Seq<Seq<char>> {
    e.map_values(|p: (String, V)| p.0@)
}

/// The map a list of entries stands for; a later entry wins.
pub open spec fn entry_map<V>(e: Seq<(String, V)>) -> Map<Seq<char>, V>
    decreases e.len(),
{
    if e.len() == 0 {
        Map::empty()
    } else {
        entry_map(e.drop_last()).insert(e.last().0@, e.last().1)
    }
}

proof fn lemma_entry_map<V>(e: Seq<(String, V)>)
    requires
        strictly_sorted(entry_keys(e)),
    ensures
        forall|i: int|
            0 <= i < e.len() ==> entry_map(e).dom().contains((#[trigger] e[i]).0@) && entry_map(e)[e[i].0@]
                == e[i].1,
        forall|k: Seq<char>|
            entry_map(e).dom().contains(k) ==> exists|i: int|
                0 <= i < e.len() && (#[trigger] e[i]).0@ == k,
    decreases e.len(),
{
    if e.len() > 0 {
        let front = e.drop_last();
        assert(entry_keys(front) =~= entry_keys(e).drop_last());
        assert forall|i: int, j: int| 0 <= i < j < front.len() implies lex_lt(
            #[trigger] entry_keys(front)[i],
            #[trigger] entry_keys(front)[j],
        ) by {
            assert(entry_keys(front)[i] == entry_keys(e)[i]);
            assert(entry_keys(front)[j] == entry_keys(e)[j]);
        }
        lemma_entry_map(front);
        assert forall|i: int| 0 <= i < e.len() implies entry_map(e).dom().contains(
            (#[trigger] e[i]).0@,
        ) && entry_map(e)[e[i].0@] == e[i].1 by {
            if i < e.len() - 1 {
                assert(front[i] == e[i]);
                assert(lex_lt(entry_keys(e)[i], entry_keys(e)[e.len() - 1]));
                lemma_lex_asymmetric(entry_keys(e)[i], entry_keys(e)[e.len() - 1]);
            }
        }
        assert forall|k: Seq<char>| entry_map(e).dom().contains(k) implies exists|i: int|
            0 <= i < e.len() && (#[trigger] e[i]).0@ == k by {
            if k == e.last().0@ {
                assert(e[e.len() - 1].0@ == k);
            } else {
                assert(entry_map(front).dom().contains(k));
                let i = choose|i: int| 0 <= i < front.len() && (#[trigger] front[i]).0@ == k;
                assert(e[i].0@ == k);
            }
        }
    }
}

/// A map from strings, in order of the keys.
#[derive(Debug, PartialEq, Eq)]
pub struct OrderedMap<V> {
    entries: Vec<(String, V)>,
}

impl<V> View for OrderedMap<V> {
    type V = Map<Seq<char>, V>;

    closed spec fn view(&self) -> Map<Seq<char>, V> {
        entry_map(self.entries@)
    }
}

impl<V> OrderedMap<V> {
    /// The keys in order.
    pub closed spec fn keys(&self) -> Seq<Seq<char>> {
        entry_keys(self.entries@)
    }

    #[verifier::type_invariant]
    spec fn well_formed(self) -> bool {
        strictly_sorted(entry_keys(self.entries@))
    }

    pub fn new() -> (r: Self)
        ensures
            r@ == Map::<Seq<char>, V>::empty(),
            r.keys() == Seq::<Seq<char>>::empty(),
    {
        let r = OrderedMap { entries: Vec::new() };
        assert(r.keys() =~= Seq::<Seq<char>>::empty());
        r
    }

    /// How many entries there are, and that the keys list them in order.
    pub fn len(&self) -> (r: usize)
        ensures
            r == self.keys().len(),
            strictly_sorted(self.keys()),
            forall|i: int| 0 <= i < r ==> self@.dom().contains(#[trigger] self.keys()[i]),
            forall|k: Seq<char>| self@.dom().contains(k) ==> #[trigger] holds(self.keys(), k),
    {
        proof {
            use_type_invariant(self);
            self.lemma_listed();
        }
        self.entries.len()
    }

    proof fn lemma_listed(&self)
        requires
            strictly_sorted(entry_keys(self.entries@)),
        ensures
            forall|i: int|
                0 <= i < self.keys().len() ==> self@.dom().contains(#[trigger] self.keys()[i])
                    && self@[self.keys()[i]] == self.entries@[i].1,
            forall|k: Seq<char>| self@.dom().contains(k) ==> #[trigger] holds(self.keys(), k),
    {
        lemma_entry_map(self.entries@);
        assert forall|i: int| 0 <= i < self.keys().len() implies self@.dom().contains(
            #[trigger] self.keys()[i],
        ) && self@[self.keys()[i]] == self.entries@[i].1 by {
            assert(self.keys()[i] == self.entries@[i].0@);
        }
        assert forall|k: Seq<char>| self@.dom().contains(k) implies #[trigger] holds(
            self.keys(),
            k,
        ) by {
            let i = choose|i: int| 0 <= i < self.entries@.len() && (#[trigger] self.entries@[i]).0@ == k;
            assert(self.keys()[i] == k);
        }
    }

    pub fn key(&self, i: usize) -> (r: &String)
        requires
            i < self.keys().len(),
        ensures
            r@ == self.keys()[i as int],
    {
        &self.entries[i].0
    }

    pub fn value(&self, i: usize) -> (r: &V)
        requires
            i < self.keys().len(),
        ensures
            self@.dom().contains(self.keys()[i as int]),
            *r == self@[self.keys()[i as int]],
    {
        proof {
            use_type_invariant(self);
            self.lemma_listed();
        }
        &self.entries[i].1
    }

    fn position(&self, s: &str) -> (r: (bool, usize))
        ensures
            r.1 <= self.entries@.len(),
            r.0 == self@.dom().contains(s@),
            r.0 ==> r.1 < self.entries@.len() && self.entries@[r.1 as int].0@ == s@
                && self@[s@] == self.entries@[r.1 as int].1,
            !r.0 ==> forall|k: int|
                0 <= k < self.keys().len() ==> (if k < r.1 {
                    lex_lt(#[trigger] self.keys()[k], s@)
                } else {
                    lex_lt(s@, self.keys()[k])
                }),
    {
        proof {
            use_type_invariant(self);
            self.lemma_listed();
        }
        let mut i: usize = 0;
        while i < self.entries.len()
            invariant
                i <= self.entries@.len(),
                strictly_sorted(self.keys()),
                self.keys() == entry_keys(self.entries@),
                forall|k: int|
                    0 <= k < self.keys().len() ==> self@.dom().contains(#[trigger] self.keys()[k])
                        && self@[self.keys()[k]] == self.entries@[k].1,
                forall|k: Seq<char>| self@.dom().contains(k) ==> #[trigger] holds(self.keys(), k),
                forall|k: int| 0 <= k < i ==> lex_lt(#[trigger] self.keys()[k], s@),
            decreases self.entries.len() - i,
        {
            if str_eq(self.entries[i].0.as_str(), s) {
                assert(self.keys()[i as int] == s@);
                return (true, i);
            }
            if str_lt(s, self.entries[i].0.as_str()) {
                proof {
                    assert forall|k: int| i <= k < self.keys().len() implies lex_lt(
                        s@,
                        #[trigger] self.keys()[k],
                    ) by {
                        if k > i {
                            lemma_lex_transitive(s@, self.keys()[i as int], self.keys()[k]);
                        }
                    }
                    if self@.dom().contains(s@) {
                        assert(holds(self.keys(), s@));
                        let k = choose|k: int| 0 <= k < self.keys().len() && #[trigger] self.keys()[k] == s@;
                        lemma_lex_irreflexive(s@);
                    }
                }
                return (false, i);
            }
            proof {
                lemma_lex_total(s@, self.keys()[i as int]);
            }
            i = i + 1;
        }
        proof {
            if self@.dom().contains(s@) {
                assert(holds(self.keys(), s@));
                let k = choose|k: int| 0 <= k < self.keys().len() && #[trigger] self.keys()[k] == s@;
                lemma_lex_irreflexive(s@);
            }
        }
        (false, i)
    }

    pub fn contains_key(&self, s: &str) -> (r: bool)
        ensures
            r == self@.dom().contains(s@),
    {
        self.position(s).0
    }

    pub fn get(&self, s: &str) -> (r: Option<&V>)
        ensures
            match r {
                Some(v) => self@.dom().contains(s@) && *v == self@[s@],
                None => !self@.dom().contains(s@),
            },
    {
        let (found, at) = self.position(s);
        if found {
            Some(&self.entries[at].1)
        } else {
            None
        }
    }

    /// Sets the value at `s`; what stood there before is dropped.
    pub fn insert(&mut self, s: String, v: V)
        ensures
            final(self)@ == old(self)@.insert(s@, v),
    {
        proof {
            use_type_invariant(&*self);
            self.lemma_listed();
        }
        let (found, at) = self.position(s.as_str());
        let ghost listed = self.keys();
        let mut entries: Vec<(String, V)> = Vec::new();
        std::mem::swap(&mut entries, &mut self.entries);
        let ghost before = entries@;
        assert(listed == entry_keys(before));
        if found {
            entries.set(at, (s, v));
            let ghost after = entries@;
            assert(entry_keys(after) =~= entry_keys(before));
            proof {
                lemma_entry_map(before);
                lemma_entry_map(after);
                assert forall|k: Seq<char>| entry_map(after).dom().contains(k) <==> entry_map(
                    before,
                ).insert(s@, v).dom().contains(k) by {
                    if entry_map(after).dom().contains(k) {
                        let i = choose|i: int| 0 <= i < after.len() && (#[trigger] after[i]).0@ == k;
                        assert(before[i].0@ == entry_keys(before)[i]);
                        assert(entry_keys(after)[i] == after[i].0@);
                        assert(entry_map(before).dom().contains(before[i].0@));
                    }
                    if entry_map(before).dom().contains(k) {
                        let i = choose|i: int| 0 <= i < before.len() && (#[trigger] before[i]).0@ == k;
                        assert(entry_keys(before)[i] == k);
                        assert(entry_keys(after)[i] == after[i].0@);
                        assert(entry_map(after).dom().contains(after[i].0@));
                    }
                    if k == s@ {
                        assert(entry_map(after).dom().contains(after[at as int].0@));
                    }
                }
                assert forall|k: Seq<char>| entry_map(after).dom().contains(k) implies entry_map(
                    after,
                )[k] == entry_map(before).insert(s@, v)[k] by {
                    let i = choose|i: int| 0 <= i < after.len() && (#[trigger] after[i]).0@ == k;
                    assert(entry_keys(after)[i] == k);
                    assert(entry_keys(before)[i] == before[i].0@);
                    assert(entry_keys(after)[at as int] == s@);
                    if i != at {
                        assert(before[i] == after[i]);
                        if i < at {
                            lemma_lex_asymmetric(entry_keys(after)[i], entry_keys(after)[at as int]);
                        } else {
                            lemma_lex_asymmetric(entry_keys(after)[at as int], entry_keys(after)[i]);
                        }
                    }
                }
                assert(entry_map(after) =~= entry_map(before).insert(s@, v));
            }
        } else {
            let ghost keys = entry_keys(before);
            entries.insert(at, (s, v));
            let ghost after = entries@;
            proof {
                assert(entry_keys(after) =~= keys.insert(at as int, s@));
                assert forall|i: int, j: int| 0 <= i < j < after.len() implies lex_lt(
                    #[trigger] entry_keys(after)[i],
                    #[trigger] entry_keys(after)[j],
                ) by {
                    if i < at && j < at {
                        assert(entry_keys(after)[i] == keys[i] && entry_keys(after)[j] == keys[j]);
                    } else if i < at && j == at {
                        assert(entry_keys(after)[i] == keys[i]);
                    } else if i < at {
                        assert(entry_keys(after)[i] == keys[i] && entry_keys(after)[j] == keys[j - 1]);
                    } else if i == at {
                        assert(entry_keys(after)[j] == keys[j - 1]);
                    } else {
                        assert(entry_keys(after)[i] == keys[i - 1] && entry_keys(after)[j] == keys[j
                            - 1]);
                    }
                }
                lemma_entry_map(before);
                lemma_entry_map(after);
                assert forall|k: Seq<char>| entry_map(after).dom().contains(k) <==> entry_map(
                    before,
                ).insert(s@, v).dom().contains(k) by {
                    if entry_map(after).dom().contains(k) {
                        let i = choose|i: int| 0 <= i < after.len() && (#[trigger] after[i]).0@ == k;
                        if i < at {
                            assert(before[i] == after[i]);
                        } else if i > at {
                            assert(before[i - 1] == after[i]);
                        }
                    }
                    if entry_map(before).dom().contains(k) {
                        let i = choose|i: int| 0 <= i < before.len() && (#[trigger] before[i]).0@ == k;
                        if i < at {
                            assert(before[i] == after[i]);
                        } else {
                            assert(before[i] == after[i + 1]);
                        }
                    }
                    if k == s@ {
                        assert(after[at as int].0@ == k);
                    }
                }
                assert forall|k: Seq<char>| entry_map(after).dom().contains(k) implies entry_map(
                    after,
                )[k] == entry_map(before).insert(s@, v)[k] by {
                    let i = choose|i: int| 0 <= i < after.len() && (#[trigger] after[i]).0@ == k;
                    assert(entry_keys(after)[i] == k);
                    assert(entry_keys(after)[at as int] == s@);
                    if i < at {
                        assert(before[i] == after[i]);
                        lemma_lex_asymmetric(entry_keys(after)[i], entry_keys(after)[at as int]);
                    } else if i > at {
                        assert(before[i - 1] == after[i]);
                        lemma_lex_asymmetric(entry_keys(after)[at as int], entry_keys(after)[i]);
                    }
                }
                assert(entry_map(after) =~= entry_map(before).insert(s@, v));
            }
        }
        self.entries = entries;
    }

    /// Takes the entry of `s` out, where there is one.
    pub fn remove(&mut self, s: &str) -> (found: bool)
        ensures
            final(self)@ == old(self)@.remove(s@),
            found == old(self)@.dom().contains(s@),
    {
        proof {
            use_type_invariant(&*self);
            self.lemma_listed();
        }
        let (found, at) = self.position(s);
        let ghost listed = self.keys();
        if !found {
            assert(self@ =~= old(self)@.remove(s@));
            return false;
        }
        let mut entries: Vec<(String, V)> = Vec::new();
        std::mem::swap(&mut entries, &mut self.entries);
        let ghost before = entries@;
        assert(listed == entry_keys(before));
        let _gone = entries.remove(at);
        let ghost after = entries@;
        proof {
            let keys = entry_keys(before);
            assert(entry_keys(after) =~= keys.remove(at as int));
            assert forall|i: int, j: int| 0 <= i < j < after.len() implies lex_lt(
                #[trigger] entry_keys(after)[i],
                #[trigger] entry_keys(after)[j],
            ) by {
                let x = if i < at {
                    i
                } else {
                    i + 1
                };
                let y = if j < at {
                    j
                } else {
                    j + 1
                };
                assert(entry_keys(after)[i] == keys[x] && entry_keys(after)[j] == keys[y]);
            }
            lemma_entry_map(before);
            lemma_entry_map(after);
            assert forall|k: Seq<char>| entry_map(after).dom().contains(k) <==> entry_map(before).remove(
                s@,
            ).dom().contains(k) by {
                if entry_map(after).dom().contains(k) {
                    let i = choose|i: int| 0 <= i < after.len() && (#[trigger] after[i]).0@ == k;
                    assert(keys[at as int] == s@);
                    if i < at {
                        assert(before[i] == after[i]);
                        assert(keys[i] == k);
                        lemma_lex_asymmetric(keys[i], keys[at as int]);
                    } else {
                        assert(before[i + 1] == after[i]);
                        assert(keys[i + 1] == k);
                        lemma_lex_asymmetric(keys[at as int], keys[i + 1]);
                    }
                }
                if entry_map(before).remove(s@).dom().contains(k) {
                    let i = choose|i: int| 0 <= i < before.len() && (#[trigger] before[i]).0@ == k;
                    if i < at {
                        assert(before[i] == after[i]);
                    } else if i > at {
                        assert(before[i] == after[i - 1]);
                    }
                }
            }
            assert forall|k: Seq<char>| entry_map(after).dom().contains(k) implies entry_map(after)[k] == entry_map(
                before,
            ).remove(s@)[k] by {
                let i = choose|i: int| 0 <= i < after.len() && (#[trigger] after[i]).0@ == k;
                if i < at {
                    assert(before[i] == after[i]);
                } else {
                    assert(before[i + 1] == after[i]);
                }
            }
            assert(entry_map(after) =~= entry_map(before).remove(s@));
        }
        self.entries = entries;
        true
    }
}

/// A map of texts, by value.
pub open spec fn text_map(m: Map<Seq<char>, String>) -> Map<Seq<char>, Seq<char>> {
    m.map_values(|s: String| s@)
}

/// Whether two maps hold the same texts.
pub fn same_texts(a: &OrderedMap<String>, b: &OrderedMap<String>) -> (r: bool)
    ensures
        r == (text_map(a@) == text_map(b@)),
{
    let n: usize = a.len();
    let mut i: usize = 0;
    while i < n
        invariant
            i <= n,
            n == a.keys().len(),
            forall|k: int|
                0 <= k < i ==> b@.dom().contains(#[trigger] a.keys()[k]) && a@.dom().contains(a.keys()[k])
                    && b@[a.keys()[k]]@ == a@[a.keys()[k]]@,
        decreases n - i,
    {
        let key = a.key(i);
        let value = a.value(i);
        match b.get(key.as_str()) {
            Some(other) => {
                if !str_eq(value.as_str(), other.as_str()) {
                    assert(text_map(a@)[key@] == value@ && text_map(b@)[key@] == other@);
                    return false;
                }
            },
            None => {
                assert(text_map(a@).dom().contains(key@) && !text_map(b@).dom().contains(key@));
                return false;
            },
        }
        i = i + 1;
    }
    let m: usize = b.len();
    let mut j: usize = 0;
    while j < m
        invariant
            j <= m,
            m == b.keys().len(),
            forall|k: int| 0 <= k < j ==> a@.dom().contains(#[trigger] b.keys()[k]),
        decreases m - j,
    {
        let key = b.key(j);
        let _value = b.value(j);
        if !a.contains_key(key.as_str()) {
            assert(text_map(b@).dom().contains(key@) && !text_map(a@).dom().contains(key@));
            return false;
        }
        j = j + 1;
    }
    let _n: usize = a.len();
    let _m: usize = b.len();
    proof {
        assert forall|k: Seq<char>| text_map(a@).dom().contains(k) <==> text_map(b@).dom().contains(k) by {
            if a@.dom().contains(k) {
                assert(holds(a.keys(), k));
                let x = choose|x: int| 0 <= x < a.keys().len() && a.keys()[x] == k;
                assert(b@.dom().contains(a.keys()[x]));
            }
            if b@.dom().contains(k) {
                assert(holds(b.keys(), k));
                let x = choose|x: int| 0 <= x < b.keys().len() && b.keys()[x] == k;
                assert(a@.dom().contains(b.keys()[x]));
            }
        }
        assert forall|k: Seq<char>| text_map(a@).dom().contains(k) implies text_map(a@)[k] == text_map(b@)[k] by {
            assert(holds(a.keys(), k));
            let x = choose|x: int| 0 <= x < a.keys().len() && a.keys()[x] == k;
            assert(b@[a.keys()[x]]@ == a@[a.keys()[x]]@);
        }
        assert(text_map(a@) =~= text_map(b@));
    }
    true
}

} // verus!
