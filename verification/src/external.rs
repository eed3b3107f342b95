//! Opening something outside the app: the decision of which URLs may be handed to the
//! user's default handler.
//!
//! This is the only place where text a model wrote causes an action outside the process,
//! so what may be opened is decided here, under a short allowlist of schemes; the handing
//! over itself is the host's.
use vstd::prelude::*;

use crate::text::{
    ascii_alnum, ascii_alpha, blank, concat3, eq_ignore_ascii_case, eq_ignoring_ascii_case,
    first_index, is_ascii_alnum, is_ascii_alpha, split_once, trim, trim_str,
};

verus! {

/// A character that may follow a scheme's first letter (RFC 3986).
pub open spec fn is_scheme_char(c: char) -> bool {
    is_ascii_alnum(c) || c == '+' || c == '-' || c == '.'
}

/// The scheme a URL starts with, as written: everything before the first `:`, when that is
/// a letter followed by at least one more letter, digit, `+`, `-` or `.`. A single letter
/// before the colon is a drive letter, not a scheme.
pub open spec fn scheme_of_spec(url: Seq<char>) -> Option<Seq<char>> {
    match first_index(url, ':') {
        Some(k) => {
            let scheme = url.subrange(0, k);
            if scheme.len() >= 2 && is_ascii_alpha(scheme[0]) && forall|i: int|
                1 <= i < scheme.len() ==> is_scheme_char(#[trigger] scheme[i]) {
                Some(scheme)
            } else {
                None
            }
        },
        None => None,
    }
}

/// The schemes that may be opened, compared without regard to ASCII case.
pub open spec fn allowed_scheme(scheme: Seq<char>) -> bool {
    ||| eq_ignoring_ascii_case(scheme, seq!['h', 't', 't', 'p'])
    ||| eq_ignoring_ascii_case(scheme, seq!['h', 't', 't', 'p', 's'])
    ||| eq_ignoring_ascii_case(scheme, seq!['m', 'a', 'i', 'l', 't', 'o'])
}

/// Whether a URL would be opened.
pub open spec fn openable(url: Seq<char>) -> bool {
    match scheme_of_spec(trim(url)) {
        Some(scheme) => allowed_scheme(scheme),
        None => false,
    }
}

fn scheme_char(c: char) -> (r: bool)
    ensures
        r == is_scheme_char(c),
{
    ascii_alnum(c) || c == '+' || c == '-' || c == '.'
}

/// The scheme a URL starts with, as written.
///
/// A letter, then at least one more letter, digit, `+`, `-` or `.` — so `C:\path` is read
/// as no scheme rather than a scheme named `C`, and whitespace cannot hide one.
pub fn scheme_of(url: &str) -> (r: Option<&str>)
    ensures
        match r {
            Some(s) => scheme_of_spec(url@) == Some(s@),
            None => scheme_of_spec(url@) is None,
        },
{
    let parts = split_once(url, ':');
    if parts.is_none() {
        return None;
    }
    let (scheme, _) = parts.unwrap();
    let ghost k = first_index(url@, ':')->0;
    assert(scheme@ == url@.subrange(0, k));
    let n = scheme.unicode_len();
    if n < 2 || !ascii_alpha(scheme.get_char(0)) {
        return None;
    }
    let mut i: usize = 1;
    while i < n
        invariant
            n == scheme@.len(),
            1 <= i <= n,
            first_index(url@, ':') is Some,
            scheme@ == url@.subrange(0, first_index(url@, ':')->0),
            forall|k: int| 1 <= k < i ==> is_scheme_char(#[trigger] scheme@[k]),
        decreases n - i,
    {
        if !scheme_char(scheme.get_char(i)) {
            assert(!is_scheme_char(scheme@[i as int]));
            assert(!(forall|j: int| 1 <= j < scheme@.len() ==> is_scheme_char(#[trigger] scheme@[j])));
            return None;
        }
        i = i + 1;
    }
    Some(scheme)
}

/// Whether a scheme is on the allowlist, ignoring ASCII case (RFC 3986 §3.1).
pub fn is_allowed(scheme: &str) -> (r: bool)
    ensures
        r == allowed_scheme(scheme@),
{
    proof {
        reveal_strlit("http");
        reveal_strlit("https");
        reveal_strlit("mailto");
    }
    assert("http"@ =~= seq!['h', 't', 't', 'p']);
    assert("https"@ =~= seq!['h', 't', 't', 'p', 's']);
    assert("mailto"@ =~= seq!['m', 'a', 'i', 'l', 't', 'o']);
    eq_ignore_ascii_case(scheme, "http") || eq_ignore_ascii_case(scheme, "https")
        || eq_ignore_ascii_case(scheme, "mailto")
}

/// Whether a URL is one this module would open.
///
/// The frontend makes the same decision when it decides whether a link is clickable.
pub fn is_openable(url: &str) -> (r: bool)
    ensures
        r == openable(url@),
{
    match scheme_of(trim_str(url)) {
        Some(scheme) => is_allowed(scheme),
        None => false,
    }
}

/// The URL to hand to the user's default application, or why it is refused.
///
/// The target is the URL trimmed. A refusal names its reason, because it is what a user
/// sees when a model hands them a link the host will not follow.
pub fn open(url: &str) -> (r: Result<String, String>)
    ensures
        r is Ok <==> openable(url@),
        r matches Ok(target) ==> target@ == trim(url@),
        blank(url@) ==> (r matches Err(e) && e@ == "no URL to open"@),
        !blank(url@) && scheme_of_spec(trim(url@)) is None ==> (r matches Err(e) && e@ == "`"@
            + trim(url@) + "` does not start with a URL scheme"@),
        scheme_of_spec(trim(url@)) matches Some(s) ==> (!allowed_scheme(s) ==> (r matches Err(e)
            && e@ == "refusing to open a `"@ + s + ":` link"@)),
{
    let trimmed = trim_str(url);
    if trimmed.unicode_len() == 0 {
        return Err("no URL to open".to_owned());
    }
    match scheme_of(trimmed) {
        None => Err(concat3("`", trimmed, "` does not start with a URL scheme")),
        Some(scheme) => {
            if !is_allowed(scheme) {
                Err(concat3("refusing to open a `", scheme, ":` link"))
            } else {
                Ok(trimmed.to_owned())
            }
        },
    }
}

} // verus!
