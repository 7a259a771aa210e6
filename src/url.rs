//! Parts of a request URL, read off its text without a full URL parser.
use vstd::prelude::*;
use crate::text::{has_prefix, find_first, chars_of, starts_with_exec, find_exec, substring};

verus! {

/// `u` without a leading `https://` or `http://`.
pub open spec fn strip_scheme(u: Seq<char>) -> Seq<char> {
    if has_prefix(u, "https://"@) {
        u.subrange("https://"@.len() as int, u.len() as int)
    } else if has_prefix(u, "http://"@) {
        u.subrange("http://"@.len() as int, u.len() as int)
    } else {
        u
    }
}

/// What stands before the first `c` in `s` (all of `s` when there is none).
pub open spec fn before_first(s: Seq<char>, c: char) -> Seq<char> {
    match find_first(s, seq![c]) {
        Some(i) => s.subrange(0, i),
        None => s,
    }
}

/// The host: after the scheme, up to the first `/`, without a port.
pub open spec fn url_host(u: Seq<char>) -> Seq<char> {
    before_first(before_first(strip_scheme(u), '/'), ':')
}

/// The path: from the first `/` after the scheme, up to a `?`; `/` when there is no slash.
pub open spec fn url_path(u: Seq<char>) -> Seq<char> {
    let w = strip_scheme(u);
    match find_first(w, seq!['/']) {
        Some(i) => before_first(w.subrange(i, w.len() as int), '?'),
        None => "/"@,
    }
}

/// `https` or `http` after the prefix that names it, else empty.
pub open spec fn url_scheme(u: Seq<char>) -> Seq<char> {
    if has_prefix(u, "https://"@) {
        "https"@
    } else if has_prefix(u, "http://"@) {
        "http"@
    } else {
        Seq::empty()
    }
}

/// What follows the first `?`, when there is one.
pub open spec fn url_query(u: Seq<char>) -> Option<Seq<char>> {
    match find_first(u, seq!['?']) {
        Some(i) => Some(u.subrange(i + 1, u.len() as int)),
        None => None,
    }
}

/// The one-character pattern `c`.
pub fn char_pattern(c: char) -> (r: Vec<char>)
    ensures
        r@ == seq![c],
{
    let mut r: Vec<char> = Vec::new();
    r.push(c);
    assert(r@ =~= seq![c]);
    r
}

/// See `strip_scheme`.
pub fn without_scheme(url: &str) -> (r: &str)
    ensures
        r@ == strip_scheme(url@),
{
    let cs = chars_of(url);
    let https = chars_of("https://");
    let http = chars_of("http://");
    if starts_with_exec(&cs, &https) {
        url.substring_char(https.len(), cs.len())
    } else if starts_with_exec(&cs, &http) {
        url.substring_char(http.len(), cs.len())
    } else {
        url
    }
}

/// See `before_first`.
pub fn before_first_exec(s: &str, c: char) -> (r: &str)
    ensures
        r@ == before_first(s@, c),
{
    let cs = chars_of(s);
    match find_exec(&cs, &char_pattern(c)) {
        Some(i) => s.substring_char(0, i),
        None => s,
    }
}

/// See `url_host`.
pub fn extract_host(url: &str) -> (r: String)
    ensures
        r@ == url_host(url@),
{
    before_first_exec(before_first_exec(without_scheme(url), '/'), ':').to_owned()
}

/// See `url_path`.
pub fn extract_path(url: &str) -> (r: String)
    ensures
        r@ == url_path(url@),
{
    let w = without_scheme(url);
    let cs = chars_of(w);
    match find_exec(&cs, &char_pattern('/')) {
        Some(i) => {
            let rest = w.substring_char(i, cs.len());
            before_first_exec(rest, '?').to_owned()
        },
        None => "/".to_owned(),
    }
}

/// See `url_scheme`.
pub fn extract_scheme(url: &str) -> (r: String)
    ensures
        r@ == url_scheme(url@),
{
    let cs = chars_of(url);
    if starts_with_exec(&cs, &chars_of("https://")) {
        "https".to_owned()
    } else if starts_with_exec(&cs, &chars_of("http://")) {
        "http".to_owned()
    } else {
        String::new()
    }
}

/// See `url_query`.
pub fn extract_query(url: &str) -> (r: Option<String>)
    ensures
        match url_query(url@) {
            Some(q) => r matches Some(x) && x@ == q,
            None => r is None,
        },
{
    let cs = chars_of(url);
    let n = cs.len();
    let q = char_pattern('?');
    match find_exec(&cs, &q) {
        Some(i) => Some(substring(url, i + 1, n)),
        None => None,
    }
}

} // verus!
