//! The record model: one archive of captured HTTP exchanges, with the
//! read-only lookups that filters make on an exchange.
use vstd::prelude::*;
use base64::Engine;
use vstd::utf8::{valid_utf8, decode_utf8, encode_utf8};
use crate::decimal::Decimal;
use crate::text::{eq_ignore_ascii_case, eq_ignore_ascii_case_exec, chars_of, same_chars};

verus! {

/// The whole archive.
#[derive(Clone, Debug)]
pub struct Har {
    pub log: Log,
}

#[derive(Clone, Debug)]
pub struct Log {
    pub version: String,
    pub creator: Creator,
    pub browser: Option<Creator>,
    pub pages: Option<Vec<Page>>,
    pub entries: Vec<Entry>,
    pub comment: Option<String>,
}

/// The tool (or browser) that wrote the archive.
#[derive(Clone, Debug)]
pub struct Creator {
    pub name: String,
    pub version: String,
    pub comment: Option<String>,
}

#[derive(Clone, Debug)]
pub struct Page {
    pub started_date_time: String,
    pub id: String,
    pub title: String,
    pub page_timings: Option<PageTimings>,
    pub comment: Option<String>,
}

#[derive(Clone, Debug)]
pub struct PageTimings {
    pub on_content_load: Option<Decimal>,
    pub on_load: Option<Decimal>,
    pub comment: Option<String>,
}

/// One captured exchange.
#[derive(Clone, Debug)]
pub struct Entry {
    pub pageref: Option<String>,
    pub started_date_time: String,
    pub time: Decimal,
    pub request: Request,
    pub response: Response,
    pub cache: Cache,
    pub timings: Timings,
    pub server_ip_address: Option<String>,
    pub connection: Option<String>,
    pub comment: Option<String>,
}

#[derive(Clone, Debug)]
pub struct Request {
    pub method: String,
    pub url: String,
    pub http_version: String,
    pub cookies: Vec<Cookie>,
    pub headers: Vec<Header>,
    pub query_string: Vec<QueryParam>,
    pub post_data: Option<PostData>,
    pub headers_size: i64,
    pub body_size: i64,
    pub comment: Option<String>,
}

#[derive(Clone, Debug)]
pub struct Response {
    pub status: i32,
    pub status_text: String,
    pub http_version: String,
    pub cookies: Vec<Cookie>,
    pub headers: Vec<Header>,
    pub content: Content,
    pub redirect_url: Option<String>,
    pub headers_size: i64,
    pub body_size: i64,
    pub comment: Option<String>,
}

#[derive(Clone, Debug)]
pub struct Cookie {
    pub name: String,
    pub value: String,
    pub path: Option<String>,
    pub domain: Option<String>,
    pub expires: Option<String>,
    pub http_only: Option<bool>,
    pub secure: Option<bool>,
    pub comment: Option<String>,
}

#[derive(Clone, Debug)]
pub struct Header {
    pub name: String,
    pub value: String,
    pub comment: Option<String>,
}

#[derive(Clone, Debug)]
pub struct QueryParam {
    pub name: String,
    pub value: String,
    pub comment: Option<String>,
}

/// A request body.
#[derive(Clone, Debug)]
pub struct PostData {
    pub mime_type: String,
    pub params: Option<Vec<PostParam>>,
    pub text: Option<String>,
    pub comment: Option<String>,
}

#[derive(Clone, Debug)]
pub struct PostParam {
    pub name: String,
    pub value: Option<String>,
    pub file_name: Option<String>,
    pub content_type: Option<String>,
    pub comment: Option<String>,
}

/// A response body.
#[derive(Clone, Debug)]
pub struct Content {
    pub size: i64,
    pub compression: Option<i64>,
    pub mime_type: Option<String>,
    pub text: Option<String>,
    pub encoding: Option<String>,
    pub comment: Option<String>,
}

#[derive(Clone, Debug)]
pub struct Cache {
    pub before_request: Option<CacheEntry>,
    pub after_request: Option<CacheEntry>,
    pub comment: Option<String>,
}

#[derive(Clone, Debug)]
pub struct CacheEntry {
    pub expires: Option<String>,
    pub last_access: Option<String>,
    pub e_tag: Option<String>,
    pub hit_count: Option<i64>,
    pub comment: Option<String>,
}

/// The phases of an exchange, in milliseconds; each may be missing.
#[derive(Clone, Debug)]
pub struct Timings {
    pub blocked: Option<Decimal>,
    pub dns: Option<Decimal>,
    pub connect: Option<Decimal>,
    pub send: Option<Decimal>,
    pub wait: Option<Decimal>,
    pub receive: Option<Decimal>,
    pub ssl: Option<Decimal>,
    pub comment: Option<String>,
}

/// The value of the first header in `hs` whose name equals `name` up to ASCII case.
pub open spec fn header_lookup(hs: Seq<Header>, name: Seq<char>) -> Option<Seq<char>>
    decreases hs.len(),
{
    if hs.len() == 0 {
        None
    } else if eq_ignore_ascii_case(hs[0].name@, name) {
        Some(hs[0].value@)
    } else {
        header_lookup(hs.drop_first(), name)
    }
}

/// The first match of `header_lookup`, by position.
fn find_header<'a>(hs: &'a Vec<Header>, name: &str) -> (r: Option<&'a str>)
    ensures
        match header_lookup(hs@, name@) {
            Some(v) => r matches Some(x) && x@ == v,
            None => r is None,
        },
{
    let mut i: usize = 0;
    assert(hs@.subrange(0, hs@.len() as int) =~= hs@);
    while i < hs.len()
        invariant
            i <= hs@.len(),
            header_lookup(hs@, name@) == header_lookup(
                hs@.subrange(i as int, hs@.len() as int),
                name@,
            ),
        decreases hs@.len() - i,
    {
        assert(hs@.subrange(i as int, hs@.len() as int).drop_first() =~= hs@.subrange(
            i + 1,
            hs@.len() as int,
        ));
        if eq_ignore_ascii_case_exec(hs[i].name.as_str(), name) {
            return Some(hs[i].value.as_str());
        }
        i = i + 1;
    }
    None
}

/// The declared response type: the body's MIME type, else the
/// `content-type` response header.
pub open spec fn content_type_of(e: Entry) -> Option<Seq<char>> {
    match e.response.content.mime_type {
        Some(m) => Some(m@),
        None => header_lookup(e.response.headers@, "content-type"@),
    }
}

impl Entry {
    /// The first request header named `name` (ASCII case ignored).
    pub fn request_header(&self, name: &str) -> (r: Option<&str>)
        ensures
            match header_lookup(self.request.headers@, name@) {
                Some(v) => r matches Some(x) && x@ == v,
                None => r is None,
            },
    {
        find_header(&self.request.headers, name)
    }

    /// The first response header named `name` (ASCII case ignored).
    pub fn response_header(&self, name: &str) -> (r: Option<&str>)
        ensures
            match header_lookup(self.response.headers@, name@) {
                Some(v) => r matches Some(x) && x@ == v,
                None => r is None,
            },
    {
        find_header(&self.response.headers, name)
    }

    /// See `content_type_of`.
    pub fn content_type(&self) -> (r: Option<&str>)
        ensures
            match content_type_of(*self) {
                Some(v) => r matches Some(x) && x@ == v,
                None => r is None,
            },
    {
        match &self.response.content.mime_type {
            Some(m) => Some(m.as_str()),
            None => self.response_header("content-type"),
        }
    }
}

/// What the standard base64 alphabet, with padding, decodes `s` to; `None`
/// when `s` is not such an encoding.
pub uninterp spec fn base64_decoded(s: Seq<char>) -> Option<Seq<u8>>;

/// Relies on base64's `STANDARD.decode`: the bytes are a function of the text
/// alone, and an error stands for text that is no valid encoding.
#[verifier::external_body]
fn decode_base64(text: &str) -> (r: Option<Vec<u8>>)
    ensures
        r is Some <==> base64_decoded(text@) is Some,
        r matches Some(v) ==> base64_decoded(text@) == Some(v@),
{
    base64::engine::general_purpose::STANDARD.decode(text).ok()
}

/// Relies on `String::from_utf8`: it accepts exactly the valid UTF-8 byte
/// sequences and keeps the characters that they encode.
#[verifier::external_body]
fn string_from_utf8(bytes: Vec<u8>) -> (r: Option<String>)
    ensures
        r is Some <==> valid_utf8(bytes@),
        r matches Some(s) ==> s@ == decode_utf8(bytes@),
{
    String::from_utf8(bytes).ok()
}

/// The encoding is declared as base64.
pub open spec fn is_base64(c: Content) -> bool {
    c.encoding matches Some(e) && e@ == "base64"@
}

/// The body's bytes: base64-decoded when so declared, else the text's UTF-8 bytes.
pub open spec fn decoded_bytes(c: Content) -> Option<Seq<u8>> {
    match c.text {
        None => None,
        Some(t) => if is_base64(c) {
            base64_decoded(t@)
        } else {
            Some(encode_utf8(t@))
        },
    }
}

/// The body as text: base64-decoded when so declared and valid UTF-8, else as written.
pub open spec fn body_text(c: Content) -> Option<Seq<char>> {
    match c.text {
        None => None,
        Some(t) => if is_base64(c) {
            match base64_decoded(t@) {
                Some(b) => if valid_utf8(b) {
                    Some(decode_utf8(b))
                } else {
                    None
                },
                None => None,
            }
        } else {
            Some(t@)
        },
    }
}

impl Content {
    fn declared_base64(&self) -> (r: bool)
        ensures
            r == is_base64(*self),
    {
        match &self.encoding {
            Some(e) => same_chars(&chars_of(e.as_str()), &chars_of("base64")),
            None => false,
        }
    }

    /// See `decoded_bytes`.
    pub fn decoded_text(&self) -> (r: Option<Vec<u8>>)
        ensures
            match decoded_bytes(*self) {
                Some(b) => r matches Some(v) && v@ == b,
                None => r is None,
            },
    {
        match &self.text {
            None => None,
            Some(t) => {
                if self.declared_base64() {
                    decode_base64(t.as_str())
                } else {
                    Some(t.as_str().as_bytes_vec())
                }
            },
        }
    }

    /// See `body_text`.
    pub fn text_content(&self) -> (r: Option<String>)
        ensures
            match body_text(*self) {
                Some(b) => r matches Some(v) && v@ == b,
                None => r is None,
            },
    {
        match &self.text {
            None => None,
            Some(t) => {
                if self.declared_base64() {
                    match decode_base64(t.as_str()) {
                        Some(bytes) => string_from_utf8(bytes),
                        None => None,
                    }
                } else {
                    Some(t.clone())
                }
            },
        }
    }
}

} // verus!
