//! The caller's author identity and the rule that decides whether a
//! commit's author matches it: exact case-insensitive match on the email
//! first, else exact case-sensitive match on the display name, and every
//! commit matches when neither field is configured.

use vstd::prelude::*;
use vstd::string::StrSliceExecFns;

verus! {

/// The configured author identity, read once from the global
/// version-control configuration. Absence of both fields means
/// "match everything".
#[derive(Clone, Debug)]
pub struct Identity {
    pub name: Option<String>,
    pub email: Option<String>,
}

/// ASCII case folding: upper-case letters fold to lower case, every other
/// code point is left alone.
pub open spec fn fold_ascii(c: int) -> int {
    if 65 <= c <= 90 {
        c + 32
    } else {
        c
    }
}

/// Two characters are equal up to ASCII case.
pub open spec fn chars_eq_ignore_ascii_case(a: char, b: char) -> bool {
    fold_ascii(a as int) == fold_ascii(b as int)
}

/// Two strings are equal up to ASCII case, character by character.
pub open spec fn str_eq_ignore_ascii_case(a: Seq<char>, b: Seq<char>) -> bool {
    a.len() == b.len() && forall|i: int|
        0 <= i < a.len() ==> chars_eq_ignore_ascii_case(a[i], b[i])
}

pub fn eq_ignore_ascii_case(a: &str, b: &str) -> (r: bool)
    ensures
        r == str_eq_ignore_ascii_case(a@, b@),
{
    let alen = a.unicode_len();
    let blen = b.unicode_len();
    if alen != blen {
        return false;
    }
    let mut i: usize = 0;
    while i < alen
        invariant
            i <= alen,
            alen == a@.len(),
            blen == b@.len(),
            alen == blen,
            forall|j: int| 0 <= j < i ==> chars_eq_ignore_ascii_case(a@[j], b@[j]),
        decreases alen - i,
    {
        let ca = a.get_char(i) as u32;
        let cb = b.get_char(i) as u32;
        let fa = if 65 <= ca && ca <= 90 {
            ca + 32
        } else {
            ca
        };
        let fb = if 65 <= cb && cb <= 90 {
            cb + 32
        } else {
            cb
        };
        if fa != fb {
            return false;
        }
        i += 1;
    }
    true
}

pub fn str_eq(a: &str, b: &str) -> (r: bool)
    ensures
        r == (a@ == b@),
{
    let alen = a.unicode_len();
    let blen = b.unicode_len();
    if alen != blen {
        proof {
            assert(a@.len() != b@.len());
        }
        return false;
    }
    let mut i: usize = 0;
    while i < alen
        invariant
            i <= alen,
            alen == a@.len(),
            blen == b@.len(),
            alen == blen,
            forall|j: int| 0 <= j < i ==> a@[j] == b@[j],
        decreases alen - i,
    {
        if a.get_char(i) != b.get_char(i) {
            return false;
        }
        i += 1;
    }
    proof {
        assert(a@ =~= b@);
    }
    true
}

/// What it means for a commit author to match the configured identity:
/// everything matches an unconfigured identity; otherwise the email is
/// compared ignoring ASCII case, and failing that the name is compared
/// exactly.
pub open spec fn spec_matches_identity(
    id: Identity,
    author_name: Option<Seq<char>>,
    author_email: Option<Seq<char>>,
) -> bool {
    if id.name is None && id.email is None {
        true
    } else if id.email is Some && author_email is Some && str_eq_ignore_ascii_case(
        id.email->0@,
        author_email->0,
    ) {
        true
    } else {
        id.name is Some && author_name is Some && id.name->0@ == author_name->0
    }
}

pub fn matches_identity(
    id: &Identity,
    author_name: Option<&str>,
    author_email: Option<&str>,
) -> (r: bool)
    ensures
        r == spec_matches_identity(*id, author_name.deep_view(), author_email.deep_view()),
{
    if id.name.is_none() && id.email.is_none() {
        return true;
    }
    if let (Some(want), Some(got)) = (id.email.as_ref(), author_email) {
        if eq_ignore_ascii_case(want.as_str(), got) {
            return true;
        }
    }
    if let (Some(want), Some(got)) = (id.name.as_ref(), author_name) {
        if str_eq(want.as_str(), got) {
            return true;
        }
    }
    false
}

#[verifier::external_type_specification]
#[verifier::external_body]
pub struct ExConfig(git2::Config);

/// Relies on git2's `Config::open_default`: a handle on the global
/// (user-level) configuration store, or None when it cannot be opened.
#[verifier::external_body]
fn open_default_config() -> (r: Option<git2::Config>) {
    git2::Config::open_default().ok()
}

/// Relies on git2's `Config::get_string`: the configured value of `key`,
/// or None when it is not set or not readable.
#[verifier::external_body]
fn config_string(cfg: &git2::Config, key: &str) -> (r: Option<String>) {
    cfg.get_string(key).ok()
}

/// The caller's identity, read once from the global version-control
/// configuration. Either field may be absent; an absent configuration is
/// no error, it yields the identity that matches everything.
pub fn default_identity() -> (r: Identity) {
    match open_default_config() {
        Some(cfg) => Identity {
            name: config_string(&cfg, "user.name"),
            email: config_string(&cfg, "user.email"),
        },
        None => Identity { name: None, email: None },
    }
}

/// An unconfigured identity never filters a commit out.
pub proof fn lemma_unconfigured_identity_matches_all(
    id: Identity,
    author_name: Option<Seq<char>>,
    author_email: Option<Seq<char>>,
)
    requires
        id.name is None,
        id.email is None,
    ensures
        spec_matches_identity(id, author_name, author_email),
{
}

/// Email matching ignores ASCII case: two author emails that differ only
/// in ASCII case are matched alike, whatever the identity and author name.
pub proof fn lemma_email_match_case_insensitive(
    id: Identity,
    author_name: Option<Seq<char>>,
    email_a: Seq<char>,
    email_b: Seq<char>,
)
    requires
        str_eq_ignore_ascii_case(email_a, email_b),
    ensures
        spec_matches_identity(id, author_name, Some(email_a)) == spec_matches_identity(
            id,
            author_name,
            Some(email_b),
        ),
{
}

} // verus!
