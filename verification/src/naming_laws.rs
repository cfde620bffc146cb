//! What holds of every name that is given or checked.
use vstd::prelude::*;

use crate::admission::{fresh_issue, input_views, selector_views, subject_of, ConvoyStartIntent};
use crate::naming::{
    admission_value, checked_branch, checked_convoy_name, checked_project_name, fallback_slug, is_token, issues_slug, kebab,
    kebab_so_far, project_name, project_reference, target_syntax, NamedIssue, ViewAddressReading,
};
use crate::text::{has_text, opt, pieces, starts, trim};
use crate::text_laws::{law_pieces_make_the_text, law_texts_are_split_at_the_first};
use crate::time::{span, Timestamp};

verus! {

/// The letters and digits of a text, in order, the letters small.
pub open spec fn letters(s: Seq<char>) -> Seq<char>
    decreases s.len(),
{
    if s.len() == 0 {
        Seq::empty()
    } else if 'a' <= s.last() <= 'z' || '0' <= s.last() <= '9' {
        letters(s.drop_last()).push(s.last())
    } else if 'A' <= s.last() <= 'Z' {
        letters(s.drop_last()).push(((s.last() as u32) + 32) as char)
    } else {
        letters(s.drop_last())
    }
}

proof fn lemma_kebab(s: Seq<char>)
    ensures
        ({
            let words = kebab_so_far(s).0;
            &&& letters(words) == letters(s)
            &&& forall|i: int|
                0 <= i < words.len() ==> 'a' <= #[trigger] words[i] <= 'z' || '0' <= words[i] <= '9' || words[i] == '-'
            &&& words.len() > 0 ==> words[0] != '-' && words.last() != '-'
            &&& forall|i: int| 0 <= i < words.len() - 1 ==> !(#[trigger] words[i] == '-' && words[i + 1] == '-')
        }),
    decreases s.len(),
{
    if s.len() > 0 {
        let front = s.drop_last();
        lemma_kebab(front);
        let (words, gap) = kebab_so_far(front);
        let last = s.last();
        let after = kebab_so_far(s).0;
        let alnum = 'a' <= last <= 'z' || '0' <= last <= '9' || 'A' <= last <= 'Z';
        if alnum {
            let c = crate::naming::lower(last);
            assert('a' <= c <= 'z' || '0' <= c <= '9') by {
                if 'A' <= last <= 'Z' {
                    assert(65 <= last as u32 <= 90);
                    assert(97 <= c as u32 <= 122);
                }
            }
            if gap && words.len() > 0 {
                let joined = words.push('-');
                assert(after == joined.push(c));
                assert(after.drop_last() =~= joined);
                assert(joined.drop_last() =~= words);
                assert(letters(joined) == letters(words));
                assert(letters(after) == letters(joined).push(c));
                assert forall|i: int| 0 <= i < after.len() - 1 implies !(#[trigger] after[i] == '-' && after[i + 1] == '-') by {
                    if i < words.len() - 1 {
                        assert(words[i] == after[i] && words[i + 1] == after[i + 1]);
                    } else if i == words.len() - 1 {
                        assert(after[i] == words.last());
                    } else {
                        assert(after[i + 1] == c);
                    }
                }
            } else {
                assert(after == words.push(c));
                assert(after.drop_last() =~= words);
                assert(letters(after) == letters(words).push(c));
                assert forall|i: int| 0 <= i < after.len() - 1 implies !(#[trigger] after[i] == '-' && after[i + 1] == '-') by {
                    if i < words.len() - 1 {
                        assert(words[i] == after[i] && words[i + 1] == after[i + 1]);
                    } else {
                        assert(after[i + 1] == c);
                    }
                }
            }
        }
    }
}

/// A name that is made of a text has all the letters and digits of it, in
/// order and small, with single hyphens between some of them and nowhere else.
pub proof fn law_names_keep_the_letters(s: Seq<char>)
    ensures
        letters(kebab(s)) == letters(s),
        forall|i: int| 0 <= i < kebab(s).len() ==> 'a' <= #[trigger] kebab(s)[i] <= 'z' || '0' <= kebab(s)[i] <= '9' || kebab(s)[i] == '-',
        kebab(s).len() > 0 ==> kebab(s)[0] != '-' && kebab(s).last() != '-',
        forall|i: int| 0 <= i < kebab(s).len() - 1 ==> !(#[trigger] kebab(s)[i] == '-' && kebab(s)[i + 1] == '-'),
{
    lemma_kebab(s);
}

/// A convoy may be called by small letters, digits and hyphens, none of these
/// at either end, one to sixty-three of them.
pub proof fn law_convoy_names_are_labels(name: Seq<char>)
    ensures
        checked_convoy_name(name) is Ok <==> 1 <= name.len() <= 63 && name[0] != '-' && name[name.len() - 1] != '-' && forall|i: int|
            0 <= i < name.len() ==> ('a' <= #[trigger] name[i] <= 'z') || ('0' <= name[i] <= '9') || name[i] == '-',
{
    if checked_convoy_name(name) is Ok {
        assert forall|i: int| 0 <= i < name.len() implies ('a' <= #[trigger] name[i] <= 'z') || ('0' <= name[i] <= '9') || name[i] == '-' by {
            assert(crate::naming::is_lower_alnum(name[i]) || name[i] == '-');
        }
    }
}

proof fn lemma_two(s: Seq<char>, a: char, b: char, pat: Seq<char>, i: int)
    requires
        pat.len() == 2 && pat[0] == a && pat[1] == b,
        !has_text(s, pat),
        0 <= i < s.len() - 1,
    ensures
        !(s[i] == a && s[i + 1] == b),
{
    if s[i] == a && s[i + 1] == b {
        assert(s.skip(i).take(2) =~= pat);
        assert(starts(s.skip(i), pat));
    }
}

/// A branch does not begin with a hyphen nor end with a dot, has no two dots
/// on end, no white space, control or pattern character, nothing that names
/// another state, and no empty part; and it is no full ref.
pub proof fn law_branches_are_plain(branch: Seq<char>)
    requires
        checked_branch(branch) is Ok,
    ensures
        branch.len() > 0,
        branch[0] != '-',
        branch[0] != '/',
        branch[0] != '.',
        branch.last() != '.',
        branch != seq!['@'],
        !starts(branch, "refs/"@),
        forall|i: int|
            0 <= i < branch.len() ==> #[trigger] branch[i] > ' ' && branch[i] != '~' && branch[i] != '^' && branch[i] != ':' && branch[i]
                != '?' && branch[i] != '*' && branch[i] != '[' && branch[i] != '\\' && branch[i] != '\x7f',
        forall|i: int|
            0 <= i < branch.len() - 1 ==> !(#[trigger] branch[i] == '.' && branch[i + 1] == '.') && !(branch[i] == '@' && branch[i + 1] == '{'),
{
    reveal_strlit("-");
    reveal_strlit(".");
    reveal_strlit("..");
    reveal_strlit("@{");
    reveal_strlit("@");
    law_pieces_make_the_text(branch, '/');
    let all = pieces(branch, '/');
    assert(!crate::naming::is_bad_component(all[0]));
    crate::text::lemma_first_at(branch, '/');
    let at = crate::text::first_at(branch, '/');
    if at < branch.len() {
        assert(all[0] == branch.take(at));
    } else {
        assert(all[0] == branch);
    }
    assert(all[0].len() > 0);
    assert(branch[0] == all[0][0]);
    if branch[0] == '-' {
        assert(branch.take(1) =~= "-"@);
    }
    if branch[0] == '.' {
        assert(all[0].take(1) =~= "."@);
    }
    if branch.last() == '.' {
        assert(branch.skip(branch.len() - 1) =~= "."@);
    }
    assert(seq!['@'] =~= "@"@);
    assert forall|i: int| 0 <= i < branch.len() - 1 implies !(#[trigger] branch[i] == '.' && branch[i + 1] == '.') && !(branch[i] == '@'
        && branch[i + 1] == '{') by {
        lemma_two(branch, '.', '.', ".."@, i);
        lemma_two(branch, '@', '{', "@{"@, i);
    }
    assert forall|i: int| 0 <= i < branch.len() implies #[trigger] branch[i] > ' ' && branch[i] != '~' && branch[i] != '^' && branch[i]
        != ':' && branch[i] != '?' && branch[i] != '*' && branch[i] != '[' && branch[i] != '\\' && branch[i] != '\x7f' by {
        assert(!crate::naming::is_branch_stop(branch[i]));
    }
}

/// What stands for an agent is made of letters, digits, dots, underscores and
/// hyphens, and of one at least.
pub proof fn law_tokens_are_plain(token: Seq<char>)
    ensures
        is_token(token) <==> token.len() > 0 && forall|i: int|
            0 <= i < token.len() ==> ('a' <= #[trigger] token[i] <= 'z') || ('A' <= token[i] <= 'Z') || ('0' <= token[i] <= '9') || token[i]
                == '.' || token[i] == '_' || token[i] == '-',
{
    if is_token(token) {
        assert forall|i: int| 0 <= i < token.len() implies ('a' <= #[trigger] token[i] <= 'z') || ('A' <= token[i] <= 'Z') || ('0'
            <= token[i] <= '9') || token[i] == '.' || token[i] == '_' || token[i] == '-' by {
            assert(crate::naming::is_token_char(token[i]));
        }
    }
}

/// A value that is given counts without the white space around it, and has to
/// have something left.
pub proof fn law_given_values_are_trimmed(value: Seq<char>, field: Seq<char>)
    ensures
        admission_value(value, field) is Ok <==> trim(value).len() > 0,
        admission_value(value, field) matches Ok(v) ==> v == trim(value),
{
}

/// A target that begins like a path is a path; another that has a slash is a
/// qualified name, and what has none may be either.
pub proof fn law_targets_are_told_by_their_slashes(target: Seq<char>)
    ensures
        target.len() > 0 && target[0] == '/' ==> target_syntax(target) is ExplicitPath,
        target.len() > 1 && target[0] == '.' && target[1] == '/' ==> target_syntax(target) is ExplicitPath,
        target.len() > 0 && target[0] != '/' && target[0] != '.' ==> (target_syntax(target) is QualifiedSlug <==> target.contains('/')),
        !target.contains('/') ==> target_syntax(target) is Ambiguous,
{
    reveal_strlit("/");
    reveal_strlit("./");
    reveal_strlit("../");
    law_texts_are_split_at_the_first(target, '/');
    if target.len() > 0 && target[0] == '/' {
        assert(target.take(1) =~= "/"@);
    }
    if target.len() > 1 && target[0] == '.' && target[1] == '/' {
        assert(target.take(2) =~= "./"@);
    }
    if starts(target, "/"@) {
        assert(target.take(1)[0] == target[0]);
        assert(target.contains('/'));
    }
    if starts(target, "./"@) {
        assert(target.take(2)[0] == target[0] && target.take(2)[1] == target[1]);
        assert(target[1] == '/');
        assert(target.contains('/'));
    }
    if starts(target, "../"@) {
        assert(target.take(3)[0] == target[0] && target.take(3)[2] == target[2]);
        assert(target[2] == '/');
        assert(target.contains('/'));
    }
}

/// A project that is referred to by a plain name is the one of that name in
/// the usual namespace.
pub proof fn law_plain_project_names_are_of_the_usual_namespace(
    usual: Seq<char>,
    value: Seq<char>,
    scheme: Seq<char>,
    reading: ViewAddressReading,
)
    requires
        trim(value).len() > 0,
        !trim(value).contains('/'),
        scheme.len() == 0 || !starts(trim(value), scheme),
    ensures
        project_reference(usual, value, scheme, reading) == Ok::<(Seq<char>, Seq<char>), Seq<char>>((usual, trim(value))),
{
    let v = trim(value);
    reveal_strlit("project/");
    law_texts_are_split_at_the_first(v, '/');
    assert(pieces(v, '/') == seq![v]);
    if starts(v, "project/"@) {
        assert(v.take(8)[7] == v[7]);
        assert(v[7] == '/');
        assert(v.contains('/'));
    }
}

/// A project that is referred to by a namespace and a name is that.
pub proof fn law_qualified_project_names_say_their_namespace(
    usual: Seq<char>,
    value: Seq<char>,
    scheme: Seq<char>,
    reading: ViewAddressReading,
    namespace: Seq<char>,
    name: Seq<char>,
)
    requires
        trim(value) == namespace.push('/') + name,
        namespace.len() > 0 && name.len() > 0,
        !namespace.contains('/') && !name.contains('/'),
        scheme.len() == 0 || !starts(trim(value), scheme),
    ensures
        project_reference(usual, value, scheme, reading) == Ok::<(Seq<char>, Seq<char>), Seq<char>>((namespace, name)),
{
    let v = trim(value);
    let n = namespace.len() as int;
    assert(v[n] == '/');
    crate::text::lemma_first_at(v, '/');
    let at = crate::text::first_at(v, '/');
    if at < n {
        assert(v[at] == namespace[at]);
        assert(namespace.contains('/'));
    }
    assert(at == n);
    assert(v.take(n) =~= namespace);
    assert(v.skip(n + 1) =~= name);
    law_texts_are_split_at_the_first(name, '/');
    assert(pieces(name, '/') == seq![name]);
    assert(pieces(v, '/') =~= seq![namespace, name]);
}

/// A convoy that nobody named is called after its only issue, after all of its
/// issues, or after its project where it has none.
pub proof fn law_unnamed_convoys_are_called_after_their_issues(issues: Seq<NamedIssue>, display_name: Seq<char>, project: Seq<char>)
    ensures
        issues.len() == 0 ==> issues_slug(issues, display_name, project) == fallback_slug(display_name, project),
        issues.len() == 1 ==> issues_slug(issues, display_name, project) == fallback_slug(issues[0].title@, issues[0].id@),
{
}

/// A made-up name is made of the title and the number, where that gives one
/// that is short enough.
pub proof fn law_short_names_are_kept(title: Seq<char>, id: Seq<char>)
    requires
        0 < kebab(title + "-"@ + id).len() <= 63,
    ensures
        fallback_slug(title, id) == kebab(title + "-"@ + id),
        letters(fallback_slug(title, id)) == letters(title + "-"@ + id),
{
    lemma_kebab(title + "-"@ + id);
}

/// Two starts are the same when they are for the same thing: the change
/// request, else the issues, else the name; and where nothing tells them
/// apart, when all that was asked for is the same.
pub proof fn law_starts_are_told_by_what_they_are_for(a: ConvoyStartIntent, b: ConvoyStartIntent)
    ensures
        a.change_request is Some && b.change_request is Some ==> (subject_of(a) == subject_of(b) <==> a.change_request->0@
            == b.change_request->0@),
        a.change_request is Some && b.change_request is None ==> subject_of(a) != subject_of(b),
        a.change_request is None && b.change_request is None && a.issues@.len() > 0 && b.issues@.len() > 0 ==> (subject_of(a) == subject_of(b)
            <==> selector_views(a.issues@) == selector_views(b.issues@)),
        a.change_request is None && b.change_request is None && a.issues@.len() == 0 && b.issues@.len() == 0 && a.name is Some
            && b.name is Some ==> (subject_of(a) == subject_of(b) <==> a.name->0@ == b.name->0@),
        a.change_request is None && b.change_request is None && a.issues@.len() == 0 && b.issues@.len() == 0 && a.name is None
            && b.name is None ==> (subject_of(a) == subject_of(b) <==> opt(a.branch) == opt(b.branch) && opt(a.workflow_ref) == opt(
            b.workflow_ref,
        ) && input_views(a.inputs@) == input_views(b.inputs@) && opt(a.instruction) == opt(b.instruction) && opt(a.placement_policy)
            == opt(b.placement_policy)),
{
}

/// What is known of an issue counts while it is no older than five minutes,
/// and not from the future.
pub proof fn law_issues_count_for_five_minutes(observed_at: Option<Timestamp>, now: Timestamp)
    ensures
        fresh_issue(observed_at, now) <==> (observed_at matches Some(at) && 0 <= span(now.secs(), now.nanos(), at.secs(), at.nanos())
            <= 300_000_000_000),
{
}

/// A project may be called by a name that is its own normal form, and by no
/// other.
pub proof fn law_projects_are_called_by_normal_names(name: Seq<char>)
    ensures
        checked_project_name(name) is Ok <==> project_name(name) == Ok::<Seq<char>, Seq<char>>(name),
        project_name(name) matches Ok(normal) ==> normal == kebab(name) && normal.len() > 0,
        checked_project_name(name) is Ok ==> forall|i: int|
            0 <= i < name.len() ==> 'a' <= #[trigger] name[i] <= 'z' || '0' <= name[i] <= '9' || name[i] == '-',
{
    lemma_kebab(name);
}

} // verus!
