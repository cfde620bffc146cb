//! What holds of texts that are taken apart and put together again.
use vstd::prelude::*;

use crate::text::{
    blank, decimal, digit, first_at, has_char, has_text, is_space, join, last_at, lemma_first_at, pieces, replace, rsplit_once,
    split_once, starts, trim, trim_end, trim_start,
};

verus! {

/// A text is split at the first occurrence of a character, where it has one,
/// and nothing of it is lost but that.
pub proof fn law_texts_are_split_at_the_first(s: Seq<char>, c: char)
    ensures
        split_once(s, c) is Some <==> s.contains(c),
        has_char(s, c) <==> s.contains(c),
        split_once(s, c) matches Some((a, b)) ==> s == a.push(c) + b && !a.contains(c),
{
    lemma_first_at(s, c);
    let at = first_at(s, c);
    if s.contains(c) {
        let i = choose|i: int| 0 <= i < s.len() && s[i] == c;
        assert(at <= i);
    }
    if at < s.len() {
        let a = s.take(at);
        assert(s =~= a.push(c) + s.skip(at + 1));
        if a.contains(c) {
            let i = choose|i: int| 0 <= i < a.len() && a[i] == c;
            assert(s[i] == c);
        }
    }
}

proof fn lemma_last_at(s: Seq<char>, c: char)
    ensures
        -1 <= last_at(s, c) < s.len(),
        last_at(s, c) >= 0 ==> s[last_at(s, c)] == c,
        forall|i: int| last_at(s, c) < i < s.len() ==> #[trigger] s[i] != c,
    decreases s.len(),
{
    if s.len() > 0 && s.last() != c {
        let front = s.drop_last();
        lemma_last_at(front, c);
        assert forall|i: int| last_at(s, c) < i < s.len() implies #[trigger] s[i] != c by {
            if i < front.len() {
                assert(front[i] == s[i]);
            }
        }
    }
}

/// A text is split from behind at the last occurrence of a character.
pub proof fn law_texts_are_split_at_the_last(s: Seq<char>, c: char)
    ensures
        rsplit_once(s, c) is Some <==> s.contains(c),
        rsplit_once(s, c) matches Some((a, b)) ==> s == a.push(c) + b && !b.contains(c),
{
    lemma_last_at(s, c);
    let at = last_at(s, c);
    if s.contains(c) {
        let i = choose|i: int| 0 <= i < s.len() && s[i] == c;
        assert(at >= i);
    }
    if at >= 0 {
        let b = s.skip(at + 1);
        assert(s =~= s.take(at).push(c) + b);
        if b.contains(c) {
            let i = choose|i: int| 0 <= i < b.len() && b[i] == c;
            assert(s[at + 1 + i] == c);
        }
    }
}

proof fn lemma_join_front(first: Seq<char>, rest: Seq<Seq<char>>, sep: Seq<char>)
    requires
        rest.len() > 0,
    ensures
        join(seq![first] + rest, sep) == first + sep + join(rest, sep),
    decreases rest.len(),
{
    let all = seq![first] + rest;
    assert(all.drop_last() =~= seq![first] + rest.drop_last());
    assert(all.last() == rest.last());
    if rest.len() == 1 {
        assert(all.drop_last() =~= seq![first]);
        assert(join(all, sep) == join(all.drop_last(), sep) + sep + all.last());
    } else {
        lemma_join_front(first, rest.drop_last(), sep);
        assert(join(all, sep) == join(all.drop_last(), sep) + sep + all.last());
        assert((first + sep + join(rest.drop_last(), sep)) + sep + rest.last() =~= first + sep + (join(rest.drop_last(), sep) + sep
            + rest.last()));
    }
}

/// The pieces of a text have none of the character that parts them, and put
/// together with it they are the text again.
pub proof fn law_pieces_make_the_text(s: Seq<char>, c: char)
    ensures
        pieces(s, c).len() > 0,
        join(pieces(s, c), seq![c]) == s,
        forall|k: int| 0 <= k < pieces(s, c).len() ==> !(#[trigger] pieces(s, c)[k]).contains(c),
    decreases s.len(),
{
    lemma_first_at(s, c);
    let at = first_at(s, c);
    if at < s.len() {
        let rest = s.skip(at + 1);
        law_pieces_make_the_text(rest, c);
        law_texts_are_split_at_the_first(s, c);
        let head = s.take(at);
        let all = pieces(s, c);
        lemma_join_front(head, pieces(rest, c), seq![c]);
        assert(head + seq![c] + rest =~= s);
        assert forall|k: int| 0 <= k < all.len() implies !(#[trigger] all[k]).contains(c) by {
            if k > 0 {
                assert(all[k] == pieces(rest, c)[k - 1]);
            }
        }
    } else {
        assert forall|i: int| 0 <= i < s.len() implies s[i] != c by {}
        assert(pieces(s, c) == seq![s]);
        assert(!s.contains(c));
    }
}

proof fn lemma_trim_start(s: Seq<char>) -> (a: int)
    ensures
        0 <= a <= s.len(),
        trim_start(s) == s.skip(a),
        forall|i: int| 0 <= i < a ==> is_space(#[trigger] s[i]),
        a < s.len() ==> !is_space(s[a]),
    decreases s.len(),
{
    if s.len() > 0 && is_space(s[0]) {
        let rest = s.drop_first();
        let a = lemma_trim_start(rest);
        assert(rest.skip(a) =~= s.skip(a + 1));
        assert forall|i: int| 0 <= i < a + 1 implies is_space(#[trigger] s[i]) by {
            if i > 0 {
                assert(rest[i - 1] == s[i]);
            }
        }
        if a + 1 < s.len() {
            assert(rest[a] == s[a + 1]);
        }
        a + 1
    } else {
        assert(s.skip(0) =~= s);
        0
    }
}

proof fn lemma_trim_end(s: Seq<char>) -> (b: int)
    ensures
        0 <= b <= s.len(),
        trim_end(s) == s.take(b),
        forall|i: int| b <= i < s.len() ==> is_space(#[trigger] s[i]),
        b > 0 ==> !is_space(s[b - 1]),
    decreases s.len(),
{
    if s.len() > 0 && is_space(s.last()) {
        let front = s.drop_last();
        let b = lemma_trim_end(front);
        assert(front.take(b) =~= s.take(b));
        assert forall|i: int| b <= i < s.len() implies is_space(#[trigger] s[i]) by {
            if i < front.len() {
                assert(front[i] == s[i]);
            }
        }
        if b > 0 {
            assert(front[b - 1] == s[b - 1]);
        }
        b
    } else {
        assert(s.take(s.len() as int) =~= s);
        s.len() as int
    }
}

/// Whether a text is white space from one position up to another.
pub open spec fn white(s: Seq<char>, from: int, to: int) -> bool {
    forall|i: int| from <= i < to ==> is_space(#[trigger] s[i])
}

/// Trimming takes white space away in front and behind, all of it there, and
/// nothing else.
pub proof fn law_trimming_takes_white_space_only(s: Seq<char>)
    ensures
        exists|a: int, b: int|
            0 <= a <= b <= s.len() && trim(s) == s.subrange(a, b) && #[trigger] white(s, 0, a) && #[trigger] white(s, b, s.len() as int),
        trim(s).len() > 0 ==> !is_space(trim(s)[0]) && !is_space(trim(s).last()),
        trim(trim(s)) == trim(s),
{
    let a = lemma_trim_start(s);
    let rest = s.skip(a);
    let n = lemma_trim_end(rest);
    let b = a + n;
    assert(rest.take(n) =~= s.subrange(a, b));
    assert forall|i: int| b <= i < s.len() implies is_space(#[trigger] s[i]) by {
        assert(rest[i - a] == s[i]);
    }
    assert(white(s, 0, a) && white(s, b, s.len() as int));
    let t = trim(s);
    if t.len() > 0 {
        assert(t[0] == s[a]);
        assert(t.last() == rest[n - 1]);
    }
    let c = lemma_trim_start(t);
    if c > 0 {
        assert(is_space(t[0]));
    }
    assert(t.skip(0) =~= t);
    let d = lemma_trim_end(t);
    if d < t.len() {
        assert(is_space(t[t.len() - 1]));
    }
    assert(t.take(t.len() as int) =~= t);
}

/// A text is blank when all of it is white space.
pub proof fn law_blank_texts_are_white(s: Seq<char>)
    ensures
        blank(s) <==> forall|i: int| 0 <= i < s.len() ==> is_space(#[trigger] s[i]),
{
    law_trimming_takes_white_space_only(s);
    let (a, b) = choose|a: int, b: int|
        0 <= a <= b <= s.len() && trim(s) == s.subrange(a, b) && #[trigger] white(s, 0, a) && #[trigger] white(s, b, s.len() as int);
    if blank(s) {
        assert forall|i: int| 0 <= i < s.len() implies is_space(#[trigger] s[i]) by {
            if i < a {
                assert(white(s, 0, a));
            } else {
                assert(white(s, b, s.len() as int));
            }
        }
    }
    if trim(s).len() > 0 {
        assert(trim(s)[0] == s[a]);
    }
}

/// The usual blanks are white space, and neither letters nor digits nor the
/// usual signs are.
pub proof fn law_blanks_are_white()
    ensures
        is_space(' ') && is_space('\t') && is_space('\n') && is_space('\r'),
        forall|c: char| '!' <= c <= '~' ==> !#[trigger] is_space(c),
{
}

/// Where a text does not have what is to be replaced, it stays.
pub proof fn law_replacing_nothing_changes_nothing(s: Seq<char>, pat: Seq<char>, with: Seq<char>)
    requires
        !has_text(s, pat),
    ensures
        replace(s, pat, with) == s,
    decreases s.len(),
{
    if s.len() > 0 && pat.len() > 0 {
        assert(s.skip(0) =~= s);
        assert(!starts(s, pat));
        let rest = s.drop_first();
        if has_text(rest, pat) {
            let i = choose|i: int| 0 <= i <= rest.len() && starts(#[trigger] rest.skip(i), pat);
            assert(rest.skip(i) =~= s.skip(i + 1));
            assert(starts(s.skip(i + 1), pat));
        }
        law_replacing_nothing_changes_nothing(rest, pat, with);
        assert(seq![s[0]] + rest =~= s);
    }
}

/// The number that decimal digits stand for.
pub open spec fn worth(s: Seq<char>) -> int
    decreases s.len(),
{
    if s.len() == 0 {
        0
    } else {
        worth(s.drop_last()) * 10 + (s.last() as int - '0' as int)
    }
}

/// The digits of a number stand for that number, and do not begin with a zero
/// unless it is zero.
pub proof fn law_digits_stand_for_their_number(n: nat)
    ensures
        worth(decimal(n)) == n,
        decimal(n).len() > 0,
        forall|i: int| 0 <= i < decimal(n).len() ==> '0' <= #[trigger] decimal(n)[i] <= '9',
        n > 0 ==> decimal(n)[0] != '0',
    decreases n,
{
    reveal_with_fuel(worth, 2);
    if n < 10 {
        assert(decimal(n) =~= seq![digit(n)]);
        assert(decimal(n).drop_last().len() == 0);
    } else {
        law_digits_stand_for_their_number(n / 10);
        let front = decimal(n / 10);
        assert(decimal(n).drop_last() =~= front);
        assert(forall|i: int| 0 <= i < front.len() ==> #[trigger] decimal(n)[i] == front[i]);
    }
}

} // verus!
