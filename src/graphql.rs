//! Recognising GraphQL operations inside JSON request bodies.
use vstd::prelude::*;
use crate::har::Entry;
use crate::text::{
    trim_start, has_prefix, is_ws, contains, upper_of, uppercase, ascii_lower, chars_of,
    starts_with_exec, is_ws_char, contains_exec, ascii_lower_exec,
    same_chars,
};
use crate::value::Lit;

verus! {

/// A member of a JSON object, as the GraphQL fields read it.
pub enum Member {
    Null,
    /// A JSON string, unescaped.
    Text(Seq<char>),
    /// Any other JSON value, as its compact JSON text.
    Other(Seq<char>),
}

/// An owned member of a JSON object (see `Member`).
pub enum JsonMember {
    Null,
    Text(String),
    Other(String),
}

impl JsonMember {
    pub open spec fn view(self) -> Member {
        match self {
            JsonMember::Null => Member::Null,
            JsonMember::Text(s) => Member::Text(s@),
            JsonMember::Other(s) => Member::Other(s@),
        }
    }
}

/// The members of the JSON object that `text` holds, in the order that the
/// parsed map keeps them (one member per key); `None` when `text` is not a
/// JSON object.
pub uninterp spec fn json_object(text: Seq<char>) -> Option<Seq<(Seq<char>, Member)>>;

/// Relies on `serde_json::from_str` into a `serde_json::Map`: it succeeds
/// exactly on the texts of JSON objects and yields a map that depends on the
/// text alone; its members are handed out in the map's order, a string as
/// its text and any other non-null value as the compact JSON text that
/// `serde_json::Value`'s `Display` writes.
#[verifier::external_body]
fn parse_json_object(text: &str) -> (r: Option<Vec<(String, JsonMember)>>)
    ensures
        r is Some <==> json_object(text@) is Some,
        r matches Some(v) ==> json_object(text@) == Some(
            v@.map_values(|p: (String, JsonMember)| (p.0@, p.1@)),
        ),
{
    let m = serde_json::from_str::<serde_json::Map<String, serde_json::Value>>(text).ok()?;
    Some(m.into_iter().map(|(k, v)| match v {
        serde_json::Value::Null => (k, JsonMember::Null),
        serde_json::Value::String(s) => (k, JsonMember::Text(s)),
        other => (k, JsonMember::Other(other.to_string())),
    }).collect())
}

/// The member stored under `key` in `ms` (the first, should keys repeat).
pub open spec fn member_lookup(ms: Seq<(Seq<char>, Member)>, key: Seq<char>) -> Option<Member>
    decreases ms.len(),
{
    if ms.len() == 0 {
        None
    } else if ms[0].0 == key {
        Some(ms[0].1)
    } else {
        member_lookup(ms.drop_first(), key)
    }
}

/// See `member_lookup`.
fn json_member<'a>(ms: &'a Vec<(String, JsonMember)>, key: &str) -> (r: Option<&'a JsonMember>)
    ensures
        match member_lookup(ms@.map_values(|p: (String, JsonMember)| (p.0@, p.1@)), key@) {
            Some(m) => r matches Some(x) && x@ == m,
            None => r is None,
        },
{
    let ghost view = ms@.map_values(|p: (String, JsonMember)| (p.0@, p.1@));
    let k = chars_of(key);
    let mut i: usize = 0;
    assert(view.subrange(0, view.len() as int) =~= view);
    while i < ms.len()
        invariant
            i <= ms@.len(),
            view == ms@.map_values(|p: (String, JsonMember)| (p.0@, p.1@)),
            k@ == key@,
            member_lookup(view, key@) == member_lookup(
                view.subrange(i as int, view.len() as int),
                key@,
            ),
        decreases ms@.len() - i,
    {
        assert(view.subrange(i as int, view.len() as int).drop_first() =~= view.subrange(
            i + 1,
            view.len() as int,
        ));
        if same_chars(&chars_of(ms[i].0.as_str()), &k) {
            return Some(&ms[i].1);
        }
        i = i + 1;
    }
    None
}

/// The members of the request body, when it is a JSON object.
pub open spec fn body_object(e: Entry) -> Option<Seq<(Seq<char>, Member)>> {
    match e.request.post_data {
        Some(pd) => match pd.text {
            Some(t) => json_object(t@),
            None => None,
        },
        None => None,
    }
}

/// The declared request body type, lowercased; empty without a body.
pub open spec fn body_mime_lower(e: Entry) -> Seq<char> {
    match e.request.post_data {
        Some(pd) => ascii_lower(pd.mime_type@),
        None => Seq::empty(),
    }
}

/// A POST whose body is declared JSON or GraphQL and is a JSON object with
/// an `operationName` or `query` member.
pub open spec fn graphql_request(e: Entry) -> bool {
    &&& upper_of(e.request.method@) == "POST"@
    &&& (contains(body_mime_lower(e), "json"@) || contains(body_mime_lower(e), "graphql"@))
    &&& body_object(e) matches Some(m)
    &&& (member_lookup(m, "operationName"@) is Some || member_lookup(m, "query"@) is Some)
}

/// The body member `key`: a string as it is, null as absent, anything else as JSON text.
pub open spec fn graphql_field(e: Entry, key: Seq<char>) -> Option<Lit> {
    match body_object(e) {
        Some(m) => match member_lookup(m, key) {
            Some(Member::Text(s)) => Some(Lit::Str(s)),
            Some(Member::Other(t)) => Some(Lit::Str(t)),
            _ => None,
        },
        None => None,
    }
}

/// `keyword` opens `t` and is followed by whitespace, `(`, `{` or nothing.
pub open spec fn opens_with_keyword(t: Seq<char>, keyword: Seq<char>) -> bool {
    &&& has_prefix(t, keyword)
    &&& {
        let rest = t.subrange(keyword.len() as int, t.len() as int);
        rest.len() == 0 || is_ws(rest[0]) || rest[0] == '(' || rest[0] == '{'
    }
}

/// The operation type that a query document opens with: the first of
/// `query`, `mutation`, `subscription` that opens it as a word, else
/// `query` for the `{ ... }` shorthand.
pub open spec fn operation_type_of(q: Seq<char>) -> Option<Seq<char>> {
    let t = trim_start(q);
    if opens_with_keyword(t, "query"@) {
        Some("query"@)
    } else if opens_with_keyword(t, "mutation"@) {
        Some("mutation"@)
    } else if opens_with_keyword(t, "subscription"@) {
        Some("subscription"@)
    } else if has_prefix(t, seq!['{']) {
        Some("query"@)
    } else {
        None
    }
}

/// The operation type of the body's `query` member, when that is a string.
pub open spec fn graphql_operation_type(e: Entry) -> Option<Lit> {
    match body_object(e) {
        Some(m) => match member_lookup(m, "query"@) {
            Some(Member::Text(q)) => match operation_type_of(q) {
                Some(t) => Some(Lit::Str(t)),
                None => None,
            },
            _ => None,
        },
        None => None,
    }
}

/// The request body parsed as a JSON object.
pub fn get_request_body_json(entry: &Entry) -> (r: Option<Vec<(String, JsonMember)>>)
    ensures
        r is Some <==> body_object(*entry) is Some,
        r matches Some(v) ==> body_object(*entry) == Some(
            v@.map_values(|p: (String, JsonMember)| (p.0@, p.1@)),
        ),
{
    match &entry.request.post_data {
        Some(pd) => match &pd.text {
            Some(t) => parse_json_object(t.as_str()),
            None => None,
        },
        None => None,
    }
}

/// See `graphql_request`.
pub fn is_graphql_request(entry: &Entry) -> (r: bool)
    ensures
        r == graphql_request(*entry),
{
    let method = chars_of(uppercase(entry.request.method.as_str()).as_str());
    if !same_chars(&method, &chars_of("POST")) {
        return false;
    }
    let mime = match &entry.request.post_data {
        Some(pd) => ascii_lower_exec(&chars_of(pd.mime_type.as_str())),
        None => Vec::new(),
    };
    assert(mime@ == body_mime_lower(*entry));
    if !contains_exec(&mime, &chars_of("json")) && !contains_exec(&mime, &chars_of("graphql")) {
        return false;
    }
    match get_request_body_json(entry) {
        Some(m) => json_member(&m, "operationName").is_some() || json_member(&m, "query").is_some(),
        None => false,
    }
}

/// See `graphql_field`.
pub fn extract_graphql_field(entry: &Entry, field: &str) -> (r: Option<crate::value::Value>)
    ensures
        match graphql_field(*entry, field@) {
            Some(l) => r matches Some(v) && v@ == l,
            None => r is None,
        },
{
    match get_request_body_json(entry) {
        Some(m) => match json_member(&m, field) {
            Some(JsonMember::Text(s)) => Some(crate::value::Value::String(s.clone())),
            Some(JsonMember::Null) => None,
            Some(JsonMember::Other(t)) => Some(crate::value::Value::String(t.clone())),
            None => None,
        },
        None => None,
    }
}

/// See `opens_with_keyword`.
fn opens_with_keyword_exec(t: &Vec<char>, keyword: &str) -> (r: bool)
    ensures
        r == opens_with_keyword(t@, keyword@),
{
    let k = chars_of(keyword);
    if !starts_with_exec(t, &k) {
        return false;
    }
    let n = k.len();
    if n == t.len() {
        assert(t@.subrange(n as int, t@.len() as int).len() == 0);
        return true;
    }
    let c = t[n];
    assert(t@.subrange(n as int, t@.len() as int)[0] == c);
    is_ws_char(c) || c == '(' || c == '{'
}

/// See `operation_type_of`.
pub fn operation_type(q: &str) -> (r: Option<String>)
    ensures
        match operation_type_of(q@) {
            Some(t) => r matches Some(x) && x@ == t,
            None => r is None,
        },
{
    let cs = chars_of(q);
    let mut lo: usize = 0;
    assert(cs@.subrange(0, cs@.len() as int) =~= cs@);
    while lo < cs.len() && is_ws_char(cs[lo])
        invariant
            lo <= cs@.len(),
            trim_start(cs@) == trim_start(cs@.subrange(lo as int, cs@.len() as int)),
        decreases cs@.len() - lo,
    {
        assert(cs@.subrange(lo as int, cs@.len() as int).drop_first() =~= cs@.subrange(
            lo + 1,
            cs@.len() as int,
        ));
        lo = lo + 1;
    }
    let t = chars_of(q.substring_char(lo, cs.len()));
    assert(t@ == trim_start(q@));
    if opens_with_keyword_exec(&t, "query") {
        Some("query".to_owned())
    } else if opens_with_keyword_exec(&t, "mutation") {
        Some("mutation".to_owned())
    } else if opens_with_keyword_exec(&t, "subscription") {
        Some("subscription".to_owned())
    } else if t.len() > 0 && t[0] == '{' {
        assert(t@.subrange(0, 1) =~= seq!['{']);
        Some("query".to_owned())
    } else {
        assert(!has_prefix(t@, seq!['{'])) by {
            if t@.len() > 0 {
                assert(t@.subrange(0, 1)[0] == t@[0]);
            }
        }
        None
    }
}

/// See `graphql_operation_type`.
pub fn extract_graphql_operation_type(entry: &Entry) -> (r: Option<crate::value::Value>)
    ensures
        match graphql_operation_type(*entry) {
            Some(l) => r matches Some(v) && v@ == l,
            None => r is None,
        },
{
    match get_request_body_json(entry) {
        Some(m) => match json_member(&m, "query") {
            Some(JsonMember::Text(q)) => match operation_type(q.as_str()) {
                Some(t) => Some(crate::value::Value::String(t)),
                None => None,
            },
            _ => None,
        },
        None => None,
    }
}

} // verus!
