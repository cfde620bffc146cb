//! The names that projects, convoys, branches and agents may have.
use vstd::prelude::*;

use crate::digest::{hex, sha256, text_digest};
use crate::text::{
    chars_of, concat2, concat3, concat5, concat7, ends, has_char, has_text, join, join_strs, opt, opt_clone, pieces, starts,
    str_ends, str_eq, str_has_char, str_has_text, str_split, str_starts, str_trim, string_of, strs, trim,
};

verus! {

/// An ASCII letter or digit.
pub open spec fn is_alnum(c: char) -> bool {
    is_lower_alnum(c) || 'A' <= c <= 'Z'
}

/// A lower-case ASCII letter or a digit.
pub open spec fn is_lower_alnum(c: char) -> bool {
    'a' <= c <= 'z' || '0' <= c <= '9'
}

/// An ASCII capital made small; any other character as it is.
pub open spec fn lower(c: char) -> char {
    if 'A' <= c <= 'Z' {
        ((c as u32) + 32) as char
    } else {
        c
    }
}

pub fn char_is_alnum(c: char) -> (r: bool)
    ensures
        r == is_alnum(c),
{
    ('a' <= c && c <= 'z') || ('0' <= c && c <= '9') || ('A' <= c && c <= 'Z')
}

pub fn char_lower(c: char) -> (r: char)
    ensures
        r == lower(c),
{
    if 'A' <= c && c <= 'Z' {
        ((c as u8) + 32) as char
    } else {
        c
    }
}

/// The words of `s` in lower case, joined by single hyphens, and whether
/// anything else came after the last of them.
pub open spec fn kebab_so_far(s: Seq<char>) -> (Seq<char>, bool)
    decreases s.len(),
{
    if s.len() == 0 {
        (Seq::empty(), false)
    } else {
        let (words, gap) = kebab_so_far(s.drop_last());
        if is_alnum(s.last()) {
            let joined = if gap && words.len() > 0 {
                words.push('-')
            } else {
                words
            };
            (joined.push(lower(s.last())), false)
        } else {
            (words, true)
        }
    }
}

/// The words of `s`, which are its runs of ASCII letters and digits, in lower
/// case and joined by single hyphens.
pub open spec fn kebab(s: Seq<char>) -> Seq<char> {
    kebab_so_far(s).0
}

/// Words in lower case, joined by single hyphens.
pub open spec fn is_kebab(s: Seq<char>) -> bool {
    &&& forall|i: int| 0 <= i < s.len() ==> is_lower_alnum(#[trigger] s[i]) || s[i] == '-'
    &&& s.len() > 0 ==> s[0] != '-' && s.last() != '-'
    &&& forall|i: int| 0 <= i < s.len() - 1 ==> !(#[trigger] s[i] == '-' && s[i + 1] == '-')
}

proof fn lemma_lower(c: char)
    requires
        is_alnum(c),
    ensures
        is_lower_alnum(lower(c)),
        is_lower_alnum(c) ==> lower(c) == c,
        lower(c) != '-',
{
}

proof fn lemma_kebab_shape(s: Seq<char>)
    ensures
        is_kebab(kebab(s)),
    decreases s.len(),
{
    if s.len() > 0 {
        lemma_kebab_shape(s.drop_last());
        let (words, gap) = kebab_so_far(s.drop_last());
        if is_alnum(s.last()) {
            lemma_lower(s.last());
            let joined = if gap && words.len() > 0 {
                words.push('-')
            } else {
                words
            };
            let out = joined.push(lower(s.last()));
            assert(kebab(s) == out);
            assert forall|i: int| 0 <= i < out.len() - 1 implies !(#[trigger] out[i] == '-' && out[i + 1] == '-') by {
                if i + 1 < words.len() {
                    assert(out[i] == words[i] && out[i + 1] == words[i + 1]);
                } else if i + 1 == words.len() {
                    assert(out[i] == words.last());
                }
            }
            assert forall|i: int| 0 <= i < out.len() implies is_lower_alnum(#[trigger] out[i]) || out[i] == '-' by {
                if i < words.len() {
                    assert(out[i] == words[i]);
                }
            }
            if words.len() > 0 {
                assert(out[0] == words[0]);
            }
        }
    }
}

/// What is left of a hyphenated prefix, and whether a gap is open.
proof fn lemma_kebab_prefix(s: Seq<char>, n: int)
    requires
        is_kebab(s),
        0 <= n <= s.len(),
    ensures
        n > 0 && s[n - 1] == '-' ==> kebab_so_far(s.take(n)) == (s.take(n - 1), true),
        !(n > 0 && s[n - 1] == '-') ==> kebab_so_far(s.take(n)) == (s.take(n), false),
    decreases n,
{
    if n > 0 {
        lemma_kebab_prefix(s, n - 1);
        let t = s.take(n);
        assert(t.drop_last() =~= s.take(n - 1));
        assert(t.last() == s[n - 1]);
        if s[n - 1] == '-' {
            assert(n - 1 > 0);
            if s[n - 2] == '-' {
                assert(!(s[n - 2] == '-' && s[n - 2 + 1] == '-'));
            }
        } else {
            lemma_lower(s[n - 1]);
            if n - 1 > 0 && s[n - 2] == '-' {
                assert(n - 2 > 0);
                assert(s.take(n - 2).push('-').push(s[n - 1]) =~= s.take(n));
            } else {
                assert(s.take(n - 1).push(s[n - 1]) =~= s.take(n));
            }
        }
    } else {
        assert(s.take(0) =~= Seq::<char>::empty());
    }
}

proof fn lemma_kebab_fixed(s: Seq<char>)
    requires
        is_kebab(s),
    ensures
        kebab(s) == s,
{
    lemma_kebab_prefix(s, s.len() as int);
    assert(s.take(s.len() as int) =~= s);
}

fn kebab_str(s: &str) -> (r: String)
    ensures
        r@ == kebab(s@),
{
    let x = chars_of(s);
    let mut words = String::new();
    let mut gap = false;
    let mut some = false;
    let mut i: usize = 0;
    assert(x@.take(0) =~= Seq::<char>::empty());
    while i < x.len()
        invariant
            x@ == s@,
            i <= x@.len(),
            kebab_so_far(x@.take(i as int)) == (words@, gap),
            some == (words@.len() > 0),
        decreases x.len() - i,
    {
        let c = x[i];
        assert(x@.take(i + 1).drop_last() =~= x@.take(i as int));
        assert(x@.take(i + 1).last() == c);
        if char_is_alnum(c) {
            if gap && some {
                words.push('-');
            }
            words.push(char_lower(c));
            some = true;
            gap = false;
        } else {
            gap = true;
        }
        i = i + 1;
    }
    assert(x@.take(x@.len() as int) =~= x@);
    words
}

/// The name that a project asked for under `name` gets.
pub open spec fn project_name(name: Seq<char>) -> Result<Seq<char>, Seq<char>> {
    if kebab(name).len() == 0 {
        Err("project name must contain an alphanumeric character"@)
    } else {
        Ok(kebab(name))
    }
}

pub fn normalize_project_name(name: &str) -> (r: Result<String, String>)
    ensures
        match r {
            Ok(n) => project_name(name@) == Ok::<Seq<char>, Seq<char>>(n@),
            Err(e) => project_name(name@) == Err::<Seq<char>, Seq<char>>(e@),
        },
{
    let words = kebab_str(name);
    if words.as_str().is_empty() {
        return Err("project name must contain an alphanumeric character".to_owned());
    }
    Ok(words)
}

/// Whether a name is what normalising makes of it.
pub open spec fn checked_project_name(name: Seq<char>) -> Result<(), Seq<char>> {
    match project_name(name) {
        Err(e) => Err(e),
        Ok(normalized) => if normalized == name {
            Ok(())
        } else {
            Err("project name `"@ + name + "` is invalid; use `"@ + normalized + "`"@)
        },
    }
}

pub fn validate_project_name(name: &str) -> (r: Result<(), String>)
    ensures
        match r {
            Ok(()) => checked_project_name(name@) == Ok::<(), Seq<char>>(()),
            Err(e) => checked_project_name(name@) == Err::<(), Seq<char>>(e@),
        },
{
    let normalized = normalize_project_name(name)?;
    if !str_eq(normalized.as_str(), name) {
        return Err(concat5("project name `", name, "` is invalid; use `", normalized.as_str(), "`"));
    }
    Ok(())
}

/// A normalised name is valid as it stands: the name a refusal suggests is
/// accepted.
pub proof fn law_normalized_project_names_are_valid(name: Seq<char>)
    requires
        project_name(name) is Ok,
    ensures
        checked_project_name(project_name(name)->Ok_0) == Ok::<(), Seq<char>>(()),
{
    lemma_kebab_shape(name);
    lemma_kebab_fixed(kebab(name));
}

/// The valid project names are the non-empty hyphenated lower-case words.
pub proof fn law_valid_project_names(name: Seq<char>)
    ensures
        checked_project_name(name) is Ok <==> is_kebab(name) && name.len() > 0,
{
    lemma_kebab_shape(name);
    if is_kebab(name) {
        lemma_kebab_fixed(name);
    }
}

/// How the target of a project command is written.
#[derive(Debug, Clone, Copy, PartialEq, Eq, Structural)]
pub enum ProjectTargetSyntax {
    ExplicitPath,
    QualifiedSlug,
    Ambiguous,
}

/// What a target is written as.
pub open spec fn target_syntax(target: Seq<char>) -> ProjectTargetSyntax {
    if starts(target, "/"@) || starts(target, "./"@) || starts(target, "../"@) {
        ProjectTargetSyntax::ExplicitPath
    } else if has_char(target, '/') {
        ProjectTargetSyntax::QualifiedSlug
    } else {
        ProjectTargetSyntax::Ambiguous
    }
}

pub fn project_target_syntax(target: &str) -> (r: ProjectTargetSyntax)
    ensures
        r == target_syntax(target@),
{
    if str_starts(target, "/") || str_starts(target, "./") || str_starts(target, "../") {
        ProjectTargetSyntax::ExplicitPath
    } else if str_has_char(target, '/') {
        ProjectTargetSyntax::QualifiedSlug
    } else {
        ProjectTargetSyntax::Ambiguous
    }
}

/// The trimmed value, unless nothing is left of it.
pub open spec fn admission_value(value: Seq<char>, field: Seq<char>) -> Result<Seq<char>, Seq<char>> {
    if trim(value).len() == 0 {
        Err(field + " cannot be empty"@)
    } else {
        Ok(trim(value))
    }
}

pub fn required_admission_value(value: &str, field: &str) -> (r: Result<String, String>)
    ensures
        match r {
            Ok(v) => admission_value(value@, field@) == Ok::<Seq<char>, Seq<char>>(v@),
            Err(e) => admission_value(value@, field@) == Err::<Seq<char>, Seq<char>>(e@),
        },
{
    let trimmed = str_trim(value);
    if trimmed.as_str().is_empty() {
        Err(concat2(field, " cannot be empty"))
    } else {
        Ok(trimmed)
    }
}

/// What a view address reads as.
#[derive(Debug, PartialEq, Eq)]
pub enum ViewAddressReading {
    Project { namespace: String, name: String },
    /// An address of another kind.
    Other { kind: String },
    Invalid { error: String },
}

/// Whether a project is named by a view address.
pub open spec fn names_view_address(value: Seq<char>, scheme: Seq<char>) -> bool {
    (scheme.len() > 0 && starts(value, scheme)) || (starts(value, "project/"@) && pieces(value, '/').len() != 2)
}

/// The namespace and the name of a project that is referred to by `value`,
/// where `reading` is what the trimmed value reads as as a view address.
pub open spec fn project_reference(
    default_namespace: Seq<char>,
    value: Seq<char>,
    scheme: Seq<char>,
    reading: ViewAddressReading,
) -> Result<(Seq<char>, Seq<char>), Seq<char>> {
    match admission_value(value, "project"@) {
        Err(e) => Err(e),
        Ok(value) => if names_view_address(value, scheme) {
            match reading {
                ViewAddressReading::Project { namespace, name } => Ok((namespace@, name@)),
                ViewAddressReading::Other { kind } => Err(
                    "invalid project reference "@ + value + ": expected a project address, got "@ + kind@,
                ),
                ViewAddressReading::Invalid { error } => Err("invalid project reference "@ + value + ": "@ + error@),
            }
        } else {
            let at = pieces(value, '/');
            if at.len() == 1 {
                Ok((default_namespace, at[0]))
            } else if at.len() == 2 && at[0].len() > 0 && at[1].len() > 0 {
                Ok((at[0], at[1]))
            } else {
                Err(
                    "invalid project reference "@ + value
                        + ": expected <name>, <namespace>/<name>, or project/<namespace>/<name>"@,
                )
            }
        },
    }
}

pub fn resolve_project_ref(
    default_namespace: &str,
    value: &str,
    scheme_prefix: &str,
    reading: &ViewAddressReading,
) -> (r: Result<(String, String), String>)
    ensures
        match r {
            Ok((namespace, name)) => project_reference(default_namespace@, value@, scheme_prefix@, *reading) == Ok::<
                (Seq<char>, Seq<char>),
                Seq<char>,
            >((namespace@, name@)),
            Err(e) => project_reference(default_namespace@, value@, scheme_prefix@, *reading) == Err::<
                (Seq<char>, Seq<char>),
                Seq<char>,
            >(e@),
        },
{
    let value = required_admission_value(value, "project")?;
    let at = str_split(value.as_str(), '/');
    assert(strs(at@).len() == at@.len());
    let has_scheme = !scheme_prefix.is_empty() && str_starts(value.as_str(), scheme_prefix);
    if has_scheme || (str_starts(value.as_str(), "project/") && at.len() != 2) {
        return match reading {
            ViewAddressReading::Project { namespace, name } => Ok((namespace.clone(), name.clone())),
            ViewAddressReading::Other { kind } => Err(
                crate::text::concat4(
                    "invalid project reference ",
                    value.as_str(),
                    ": expected a project address, got ",
                    kind.as_str(),
                ),
            ),
            ViewAddressReading::Invalid { error } => Err(
                crate::text::concat4("invalid project reference ", value.as_str(), ": ", error.as_str()),
            ),
        };
    }
    if at.len() == 1 {
        assert(strs(at@)[0] == at@[0]@);
        return Ok((default_namespace.to_owned(), at[0].clone()));
    }
    if at.len() == 2 {
        assert(strs(at@)[0] == at@[0]@ && strs(at@)[1] == at@[1]@);
        if !at[0].as_str().is_empty() && !at[1].as_str().is_empty() {
            return Ok((at[0].clone(), at[1].clone()));
        }
    }
    Err(
        concat3(
            "invalid project reference ",
            value.as_str(),
            ": expected <name>, <namespace>/<name>, or project/<namespace>/<name>",
        ),
    )
}

/// Why a project could not be read.
#[derive(Debug, PartialEq, Eq)]
pub enum ReadFailure {
    NotFound { name: String },
    Other { message: String },
}

/// What is said when a project cannot be read.
pub open spec fn not_ready_text(namespace: Seq<char>, project: Seq<char>, failure: ReadFailure) -> Seq<char> {
    match failure {
        ReadFailure::NotFound { name } => "project "@ + namespace + "/"@ + project + " is not ready: resource not found: "@
            + name@ + " (tried "@ + namespace + "/"@ + project + ")"@,
        ReadFailure::Other { message } => "project "@ + project + " is not ready: "@ + message@,
    }
}

pub fn project_not_ready_error(namespace: &str, project_ref: &str, failure: &ReadFailure) -> (r: String)
    ensures
        r@ == not_ready_text(namespace@, project_ref@, *failure),
{
    match failure {
        ReadFailure::NotFound { name } => {
            let mut r = concat7(
                "project ",
                namespace,
                "/",
                project_ref,
                " is not ready: resource not found: ",
                name.as_str(),
                " (tried ",
            );
            r.append(namespace);
            r.append("/");
            r.append(project_ref);
            r.append(")");
            r
        },
        ReadFailure::Other { message } => crate::text::concat4(
            "project ",
            project_ref,
            " is not ready: ",
            message.as_str(),
        ),
    }
}

/// A character of a harness or model name.
pub open spec fn is_token_char(c: char) -> bool {
    is_alnum(c) || c == '.' || c == '_' || c == '-'
}

/// A harness or model name.
pub open spec fn is_token(s: Seq<char>) -> bool {
    s.len() > 0 && forall|i: int| 0 <= i < s.len() ==> is_token_char(#[trigger] s[i])
}

/// Adapter ids and model names reach a launch command line, so only the
/// characters that real ones use are let through.
pub fn valid_agent_override_token(token: &str) -> (r: bool)
    ensures
        r == is_token(token@),
{
    let x = chars_of(token);
    if x.len() == 0 {
        return false;
    }
    let mut i: usize = 0;
    while i < x.len()
        invariant
            x@ == token@,
            i <= x@.len(),
            forall|k: int| 0 <= k < i ==> is_token_char(#[trigger] token@[k]),
        decreases x.len() - i,
    {
        let c = x[i];
        if !(char_is_alnum(c) || c == '.' || c == '_' || c == '-') {
            assert(!is_token_char(token@[i as int]));
            return false;
        }
        i = i + 1;
    }
    true
}

/// A lower-case DNS label.
pub open spec fn is_dns_label(name: Seq<char>) -> bool {
    &&& 0 < name.len() <= 63
    &&& forall|i: int| 0 <= i < name.len() ==> is_lower_alnum(#[trigger] name[i]) || name[i] == '-'
    &&& name[0] != '-'
    &&& name.last() != '-'
}

/// What is said of a convoy name.
pub open spec fn checked_convoy_name(name: Seq<char>) -> Result<(), Seq<char>> {
    if is_dns_label(name) {
        Ok(())
    } else {
        Err("convoy name `"@ + name + "` must be a lowercase DNS label of at most 63 characters"@)
    }
}

fn dns_label(name: &str) -> (r: bool)
    ensures
        r == is_dns_label(name@),
{
    let x = chars_of(name);
    if x.len() == 0 || x.len() > 63 {
        return false;
    }
    let mut i: usize = 0;
    while i < x.len()
        invariant
            x@ == name@,
            i <= x@.len(),
            forall|k: int| 0 <= k < i ==> is_lower_alnum(#[trigger] name@[k]) || name@[k] == '-',
        decreases x.len() - i,
    {
        let c = x[i];
        if !(('a' <= c && c <= 'z') || ('0' <= c && c <= '9') || c == '-') {
            assert(!is_lower_alnum(name@[i as int]));
            return false;
        }
        i = i + 1;
    }
    x[0] != '-' && x[x.len() - 1] != '-'
}

pub fn validate_convoy_name(name: &str) -> (r: Result<(), String>)
    ensures
        match r {
            Ok(()) => checked_convoy_name(name@) == Ok::<(), Seq<char>>(()),
            Err(e) => checked_convoy_name(name@) == Err::<(), Seq<char>>(e@),
        },
{
    if dns_label(name) {
        Ok(())
    } else {
        Err(concat3("convoy name `", name, "` must be a lowercase DNS label of at most 63 characters"))
    }
}

/// A character that no branch name holds.
pub open spec fn is_branch_stop(c: char) -> bool {
    c <= ' ' || c == '\x7f' || c == '~' || c == '^' || c == ':' || c == '?' || c == '*' || c == '[' || c == '\\'
}

/// A component that no branch name holds.
pub open spec fn is_bad_component(s: Seq<char>) -> bool {
    s.len() == 0 || starts(s, "."@) || ends(s, ".lock"@)
}

/// A git branch name.
pub open spec fn is_branch(branch: Seq<char>) -> bool {
    &&& vstd::utf8::encode_utf8(branch).len() <= 1024
    &&& branch != "@"@
    &&& !starts(branch, "-"@)
    &&& !starts(branch, "refs/"@)
    &&& !ends(branch, "."@)
    &&& !has_text(branch, ".."@)
    &&& !has_text(branch, "@{"@)
    &&& forall|i: int| 0 <= i < branch.len() ==> !is_branch_stop(#[trigger] branch[i])
    &&& forall|k: int| 0 <= k < pieces(branch, '/').len() ==> !is_bad_component(#[trigger] pieces(branch, '/')[k])
}

/// What is said of a branch name.
pub open spec fn checked_branch(branch: Seq<char>) -> Result<(), Seq<char>> {
    if is_branch(branch) {
        Ok(())
    } else {
        Err("branch `"@ + branch + "` is not a valid git branch name"@)
    }
}

fn has_branch_stop(branch: &str) -> (r: bool)
    ensures
        r == exists|i: int| 0 <= i < branch@.len() && is_branch_stop(#[trigger] branch@[i]),
{
    let x = chars_of(branch);
    let mut i: usize = 0;
    while i < x.len()
        invariant
            x@ == branch@,
            i <= x@.len(),
            forall|k: int| 0 <= k < i ==> !is_branch_stop(#[trigger] branch@[k]),
        decreases x.len() - i,
    {
        let c = x[i];
        if c <= ' ' || c == '\x7f' || c == '~' || c == '^' || c == ':' || c == '?' || c == '*' || c == '[' || c == '\\' {
            assert(is_branch_stop(branch@[i as int]));
            return true;
        }
        i = i + 1;
    }
    false
}

fn has_bad_component(branch: &str) -> (r: bool)
    ensures
        r == exists|k: int|
            0 <= k < pieces(branch@, '/').len() && is_bad_component(#[trigger] pieces(branch@, '/')[k]),
{
    let parts = str_split(branch, '/');
    let mut i: usize = 0;
    assert(strs(parts@).len() == parts@.len());
    while i < parts.len()
        invariant
            i <= parts@.len(),
            strs(parts@) == pieces(branch@, '/'),
            strs(parts@).len() == parts@.len(),
            forall|k: int| 0 <= k < i ==> !is_bad_component(#[trigger] pieces(branch@, '/')[k]),
        decreases parts.len() - i,
    {
        let part = parts[i].as_str();
        assert(pieces(branch@, '/')[i as int] == part@);
        if part.is_empty() || str_starts(part, ".") || str_ends(part, ".lock") {
            assert(is_bad_component(pieces(branch@, '/')[i as int]));
            return true;
        }
        i = i + 1;
    }
    false
}

pub fn validate_convoy_branch(branch: &str) -> (r: Result<(), String>)
    ensures
        match r {
            Ok(()) => checked_branch(branch@) == Ok::<(), Seq<char>>(()),
            Err(e) => checked_branch(branch@) == Err::<(), Seq<char>>(e@),
        },
{
    if branch.as_bytes().len() > 1024 || str_eq(branch, "@") || str_starts(branch, "-") || str_starts(branch, "refs/")
        || str_ends(branch, ".") || str_has_text(branch, "..") || str_has_text(branch, "@{") || has_branch_stop(branch)
        || has_bad_component(branch) {
        return Err(concat3("branch `", branch, "` is not a valid git branch name"));
    }
    Ok(())
}

pub fn adopted_checkout_name(convoy_name: &str) -> (r: String)
    ensures
        r@ == "adopted-checkout-"@ + convoy_name@,
{
    concat2("adopted-checkout-", convoy_name)
}

/// The most characters a convoy's name has.
pub const MAX_CONVOY_NAME_LEN: usize = 63;

/// `s` without the hyphens behind.
pub open spec fn trim_hyphens(s: Seq<char>) -> Seq<char>
    decreases s.len(),
{
    if s.len() > 0 && s.last() == '-' {
        trim_hyphens(s.drop_last())
    } else {
        s
    }
}

proof fn lemma_trim_hyphens(s: Seq<char>)
    requires
        s.len() > 0,
        s[0] != '-',
    ensures
        trim_hyphens(s).len() > 0,
        trim_hyphens(s).len() <= s.len(),
        trim_hyphens(s) == s.take(trim_hyphens(s).len() as int),
    decreases s.len(),
{
    if s.last() == '-' {
        assert(s.len() > 1);
        lemma_trim_hyphens(s.drop_last());
        assert(s.drop_last().take(trim_hyphens(s).len() as int) =~= s.take(trim_hyphens(s).len() as int));
    } else {
        assert(s.take(s.len() as int) =~= s);
    }
}

/// The hyphenated words of a title and an id, cut to a convoy name: what is
/// too long keeps its front and gets a digest of the whole.
pub open spec fn fallback_slug(title: Seq<char>, id: Seq<char>) -> Seq<char> {
    let words = kebab(title + "-"@ + id);
    let slug = if words.len() == 0 {
        "convoy"@
    } else {
        words
    };
    if slug.len() <= 63 {
        slug
    } else {
        trim_hyphens(slug.take(54)) + "-"@ + hex(sha256(vstd::utf8::encode_utf8(slug)).take(4))
    }
}

/// A slug that is cut and gets a digest behind is a valid convoy name.
proof fn lemma_cut_slug(words: Seq<char>, tail: Seq<char>)
    requires
        is_kebab(words),
        words.len() > 63,
        tail.len() == 8,
        forall|i: int| 0 <= i < tail.len() ==> is_lower_alnum(#[trigger] tail[i]),
    ensures
        is_dns_label(trim_hyphens(words.take(54)) + "-"@ + tail),
{
    reveal_strlit("-");
    let base = words.take(54);
    let kept = trim_hyphens(base);
    lemma_trim_hyphens(base);
    let out = kept + "-"@ + tail;
    assert forall|i: int| 0 <= i < out.len() implies is_lower_alnum(#[trigger] out[i]) || out[i] == '-' by {
        if i < kept.len() {
            assert(out[i] == words[i]);
        } else if i > kept.len() {
            assert(out[i] == tail[i - kept.len() - 1]);
        }
    }
    assert(out[0] == words[0]);
    assert(out.last() == tail[7]);
}

proof fn lemma_hex_lower(data: Seq<u8>)
    ensures
        forall|i: int| 0 <= i < hex(data).len() ==> is_lower_alnum(#[trigger] hex(data)[i]),
    decreases data.len(),
{
    if data.len() > 0 {
        let front = hex(data.drop_last());
        lemma_hex_lower(data.drop_last());
        assert forall|i: int| 0 <= i < hex(data).len() implies is_lower_alnum(#[trigger] hex(data)[i]) by {
            if i < front.len() {
                assert(hex(data)[i] == front[i]);
            }
        }
    }
}

/// A fallback slug is always a valid convoy name.
pub fn convoy_fallback_slug(title: &str, id: &str) -> (r: String)
    ensures
        r@ == fallback_slug(title@, id@),
        checked_convoy_name(r@) is Ok,
{
    let whole = concat3(title, "-", id);
    let words = kebab_str(whole.as_str());
    proof {
        lemma_kebab_shape(whole@);
        reveal_strlit("convoy");
    }
    let slug = if words.as_str().is_empty() {
        "convoy".to_owned()
    } else {
        words
    };
    let x = chars_of(slug.as_str());
    if x.len() <= MAX_CONVOY_NAME_LEN {
        return slug;
    }
    let suffix = text_digest(slug.as_str(), 4);
    let mut n: usize = 54;
    assert(x@.take(54) == slug@.take(54));
    while n > 0 && x[n - 1] == '-'
        invariant
            n <= 54 < x@.len(),
            trim_hyphens(x@.take(54)) == trim_hyphens(x@.take(n as int)),
        decreases n,
    {
        assert(x@.take(n as int).drop_last() =~= x@.take(n - 1));
        n = n - 1;
    }
    let base = string_of(&x, 0, n);
    assert(base@ =~= x@.take(n as int));
    proof {
        lemma_hex_lower(sha256(vstd::utf8::encode_utf8(slug@)).take(4));
        lemma_cut_slug(slug@, suffix@);
    }
    concat3(base.as_str(), "-", suffix.as_str())
}

/// An issue as a convoy carries it.
#[derive(Debug, PartialEq, Eq)]
pub struct NamedIssue {
    pub id: String,
    pub title: String,
    pub body: Option<String>,
}

impl NamedIssue {
    pub fn copy(&self) -> (r: Self)
        ensures
            r == *self,
    {
        NamedIssue { id: self.id.clone(), title: self.title.clone(), body: opt_clone(&self.body) }
    }
}

/// The ids of issues.
pub open spec fn issue_ids(issues: Seq<NamedIssue>) -> Seq<Seq<char>> {
    Seq::new(issues.len(), |i: int| issues[i].id@)
}

/// The fallback slug of the issues a convoy carries.
pub open spec fn issues_slug(issues: Seq<NamedIssue>, display_name: Seq<char>, project: Seq<char>) -> Seq<char> {
    if issues.len() == 0 {
        fallback_slug(display_name, project)
    } else if issues.len() == 1 {
        fallback_slug(issues[0].title@, issues[0].id@)
    } else {
        fallback_slug("batch-issues"@, join(issue_ids(issues), "-"@))
    }
}

pub fn convoy_issues_fallback_slug(issues: &Vec<NamedIssue>, project_display_name: &str, project_ref: &str) -> (r: String)
    ensures
        r@ == issues_slug(issues@, project_display_name@, project_ref@),
{
    if issues.len() == 0 {
        return convoy_fallback_slug(project_display_name, project_ref);
    }
    if issues.len() == 1 {
        return convoy_fallback_slug(issues[0].title.as_str(), issues[0].id.as_str());
    }
    let mut ids: Vec<String> = Vec::new();
    let mut i: usize = 0;
    while i < issues.len()
        invariant
            i <= issues@.len(),
            ids@.len() == i,
            forall|k: int| 0 <= k < i ==> (#[trigger] ids@[k])@ == issues@[k].id@,
        decreases issues.len() - i,
    {
        ids.push(issues[i].id.clone());
        i = i + 1;
    }
    assert(strs(ids@) =~= issue_ids(issues@));
    let joined = join_strs(&ids, "-");
    convoy_fallback_slug("batch-issues", joined.as_str())
}

/// What a name is made up from, of one issue.
pub open spec fn issue_context(issue: NamedIssue) -> Seq<char> {
    "Issue "@ + issue.id@ + ": "@ + issue.title@ + "\n"@ + (match opt(issue.body) {
        Some(body) => body,
        None => ""@,
    })
}

pub fn convoy_issue_name_context(issue: &NamedIssue) -> (r: String)
    ensures
        r@ == issue_context(*issue),
{
    let mut r = concat5("Issue ", issue.id.as_str(), ": ", issue.title.as_str(), "\n");
    match &issue.body {
        Some(body) => {
            r.append(body.as_str());
        },
        None => {
            r.append("");
        },
    }
    r
}

/// Whether a character is a lower-case hexadecimal digit.
pub open spec fn is_lower_hex(c: char) -> bool {
    ('0' <= c && c <= '9') || ('a' <= c && c <= 'f')
}

/// Whether a character begins the group that tells the variant of an id.
pub open spec fn tells_variant(c: char) -> bool {
    c == '8' || c == '9' || c == 'a' || c == 'b'
}

/// The digits of a fresh id: 32 of them, with the version and the variant of
/// one that was drawn at random.
pub open spec fn fresh_digits(id: Seq<char>) -> bool {
    &&& id.len() == 32
    &&& forall|i: int| 0 <= i < id.len() ==> is_lower_hex(#[trigger] id[i])
    &&& id[12] == '4'
    &&& tells_variant(id[16])
}

/// `uuid::Uuid::new_v4` in its `simple` form: 32 lower-case hexadecimal digits
/// drawn at random, but for the version and the variant.
#[verifier::external_body]
fn fresh_uuid() -> (r: String)
    ensures
        fresh_digits(r@),
{
    uuid::Uuid::new_v4().simple().to_string()
}

/// A fresh record name, which is a valid convoy name: the prefix, and the
/// digits of a fresh id.
pub fn convoy_record_name() -> (r: String)
    ensures
        exists|id: Seq<char>| #[trigger] fresh_digits(id) && r@ == "convoy-"@ + id,
        checked_convoy_name(r@) is Ok,
{
    let id = fresh_uuid();
    let r = concat2("convoy-", id.as_str());
    proof {
        reveal_strlit("convoy-");
        assert(r@.last() == id@[31]);
        assert forall|i: int| 0 <= i < r@.len() implies is_lower_alnum(#[trigger] r@[i]) || r@[i] == '-' by {
            if i >= 7 {
                assert(r@[i] == id@[i - 7]);
            }
        }
    }
    r
}

} // verus!
