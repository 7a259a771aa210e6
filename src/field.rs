//! The closed catalog of record fields that a filter can name, and how each
//! is read from a record.
use vstd::prelude::*;
use crate::decimal::{Decimal, ONE};
use crate::har::{Entry, header_lookup, content_type_of};
use crate::text::{
    trim, has_prefix, has_suffix, ascii_lower, chars_of, trim_str, starts_with_exec,
    ends_with_exec, ascii_lower_exec, same_chars,
};
use crate::url::{url_host, url_path, url_scheme, url_query, extract_host, extract_path, extract_scheme, extract_query};
use crate::graphql::{
    graphql_field, graphql_operation_type, graphql_request, extract_graphql_field,
    extract_graphql_operation_type, is_graphql_request,
};
use crate::value::{Lit, Value, unquote, unquote_trimmed};

verus! {

/// Why an expression was refused.
#[derive(Clone, Debug)]
pub enum FilterError {
    /// The text names no field.
    UnknownField(String),
    /// A `matches` pattern does not compile.
    InvalidRegex(String),
    /// No operator, method call or field name fits the text.
    UnparsableExpression(String),
}

/// A field of a record.
#[derive(Clone, Debug)]
pub enum Field {
    Method,
    Url,
    Host,
    Domain,
    Path,
    Scheme,
    Query,
    Status,
    StatusText,
    Time,
    StartedDateTime,
    ServerIpAddress,
    RequestHttpVersion,
    RequestHeadersSize,
    RequestBodySize,
    ResponseHttpVersion,
    ResponseHeadersSize,
    ResponseBodySize,
    ContentType,
    ContentSize,
    TimingBlocked,
    TimingDns,
    TimingConnect,
    TimingSsl,
    TimingSend,
    TimingWait,
    TimingReceive,
    /// A request header, by name as written.
    RequestHeader(String),
    /// A response header, by name as written.
    ResponseHeader(String),
    GqlOperationName,
    GqlOperationType,
    GqlQuery,
    IsGraphQL,
}

/// The field that a lowercased plain name (no header call) stands for.
pub open spec fn plain_field(n: Seq<char>) -> Option<Field> {
    if n == "method"@ {
        Some(Field::Method)
    } else if n == "url"@ {
        Some(Field::Url)
    } else if n == "host"@ {
        Some(Field::Host)
    } else if n == "domain"@ {
        Some(Field::Domain)
    } else if n == "path"@ {
        Some(Field::Path)
    } else if n == "scheme"@ || n == "protocol"@ {
        Some(Field::Scheme)
    } else if n == "query"@ || n == "querystring"@ || n == "query_string"@ {
        Some(Field::Query)
    } else if n == "status"@ {
        Some(Field::Status)
    } else if n == "statustext"@ || n == "status_text"@ {
        Some(Field::StatusText)
    } else if n == "time"@ {
        Some(Field::Time)
    } else if n == "starteddatetime"@ || n == "started_date_time"@ {
        Some(Field::StartedDateTime)
    } else if n == "serveripaddress"@ || n == "server_ip_address"@ || n == "serverip"@ {
        Some(Field::ServerIpAddress)
    } else if n == "request.httpversion"@ || n == "request.http_version"@ {
        Some(Field::RequestHttpVersion)
    } else if n == "request.headerssize"@ || n == "request.headers_size"@ {
        Some(Field::RequestHeadersSize)
    } else if n == "request.bodysize"@ || n == "request.body_size"@ {
        Some(Field::RequestBodySize)
    } else if n == "response.httpversion"@ || n == "response.http_version"@ {
        Some(Field::ResponseHttpVersion)
    } else if n == "response.headerssize"@ || n == "response.headers_size"@ {
        Some(Field::ResponseHeadersSize)
    } else if n == "response.bodysize"@ || n == "response.body_size"@ || n == "bodysize"@ || n
        == "body_size"@ {
        Some(Field::ResponseBodySize)
    } else if n == "contenttype"@ || n == "content_type"@ || n == "response.contenttype"@ {
        Some(Field::ContentType)
    } else if n == "contentsize"@ || n == "content_size"@ || n == "response.content.size"@ {
        Some(Field::ContentSize)
    } else if n == "timings.blocked"@ || n == "blocked"@ {
        Some(Field::TimingBlocked)
    } else if n == "timings.dns"@ || n == "dns"@ {
        Some(Field::TimingDns)
    } else if n == "timings.connect"@ || n == "connect"@ {
        Some(Field::TimingConnect)
    } else if n == "timings.ssl"@ || n == "ssl"@ {
        Some(Field::TimingSsl)
    } else if n == "timings.send"@ || n == "send"@ {
        Some(Field::TimingSend)
    } else if n == "timings.wait"@ || n == "wait"@ {
        Some(Field::TimingWait)
    } else if n == "timings.receive"@ || n == "receive"@ {
        Some(Field::TimingReceive)
    } else if n == "gql.operation"@ || n == "gql.operationname"@ || n == "operationname"@ {
        Some(Field::GqlOperationName)
    } else if n == "gql.type"@ || n == "gql.operationtype"@ || n == "operationtype"@ {
        Some(Field::GqlOperationType)
    } else if n == "gql.query"@ {
        Some(Field::GqlQuery)
    } else if n == "gql.isgraphql"@ || n == "isgraphql"@ {
        Some(Field::IsGraphQL)
    } else {
        None
    }
}

/// `t` has the call shape `<prefix>...)`.
pub open spec fn is_call(t: Seq<char>, prefix: Seq<char>) -> bool {
    has_prefix(t, prefix) && has_suffix(t, ")"@)
}

/// The argument text of the call `t` that opens with `prefix`, unquoted.
pub open spec fn call_arg(t: Seq<char>, prefix: Seq<char>) -> Seq<char> {
    unquote(trim(t.subrange(prefix.len() as int, t.len() - 1)))
}

/// The text `s` names a field.
pub open spec fn field_known(s: Seq<char>) -> bool {
    let t = trim(s);
    is_call(t, "request.header("@) || is_call(t, "response.header("@) || plain_field(
        ascii_lower(t),
    ) is Some
}

/// `f` is the field that the text `s` names: a header call keeps its
/// argument as written; a plain name is matched ignoring ASCII case.
pub open spec fn names_field(f: Field, s: Seq<char>) -> bool {
    let t = trim(s);
    if is_call(t, "request.header("@) {
        f matches Field::RequestHeader(n) && n@ == call_arg(t, "request.header("@)
    } else if is_call(t, "response.header("@) {
        f matches Field::ResponseHeader(n) && n@ == call_arg(t, "response.header("@)
    } else {
        plain_field(ascii_lower(t)) == Some(f)
    }
}

pub open spec fn num_of(v: int) -> Lit {
    Lit::Num(v * ONE)
}

pub open spec fn opt_units(d: Option<Decimal>) -> Option<Lit> {
    match d {
        Some(x) => Some(Lit::Num(x.units as int)),
        None => None,
    }
}

pub open spec fn opt_str(s: Option<Seq<char>>) -> Option<Lit> {
    match s {
        Some(x) => Some(Lit::Str(x)),
        None => None,
    }
}

/// What field `f` reads from record `e`; `None` when the record lacks it.
pub open spec fn field_value(f: Field, e: Entry) -> Option<Lit> {
    match f {
        Field::Method => Some(Lit::Str(e.request.method@)),
        Field::Url => Some(Lit::Str(e.request.url@)),
        Field::Host | Field::Domain => Some(Lit::Str(url_host(e.request.url@))),
        Field::Path => Some(Lit::Str(url_path(e.request.url@))),
        Field::Scheme => Some(Lit::Str(url_scheme(e.request.url@))),
        Field::Query => opt_str(url_query(e.request.url@)),
        Field::Status => Some(num_of(e.response.status as int)),
        Field::StatusText => Some(Lit::Str(e.response.status_text@)),
        Field::Time => Some(Lit::Num(e.time.units as int)),
        Field::StartedDateTime => Some(Lit::Str(e.started_date_time@)),
        Field::ServerIpAddress => match e.server_ip_address {
            Some(s) => Some(Lit::Str(s@)),
            None => None,
        },
        Field::RequestHttpVersion => Some(Lit::Str(e.request.http_version@)),
        Field::RequestHeadersSize => Some(num_of(e.request.headers_size as int)),
        Field::RequestBodySize => Some(num_of(e.request.body_size as int)),
        Field::ResponseHttpVersion => Some(Lit::Str(e.response.http_version@)),
        Field::ResponseHeadersSize => Some(num_of(e.response.headers_size as int)),
        Field::ResponseBodySize => Some(num_of(e.response.body_size as int)),
        Field::ContentType => opt_str(content_type_of(e)),
        Field::ContentSize => Some(num_of(e.response.content.size as int)),
        Field::TimingBlocked => opt_units(e.timings.blocked),
        Field::TimingDns => opt_units(e.timings.dns),
        Field::TimingConnect => opt_units(e.timings.connect),
        Field::TimingSsl => opt_units(e.timings.ssl),
        Field::TimingSend => opt_units(e.timings.send),
        Field::TimingWait => opt_units(e.timings.wait),
        Field::TimingReceive => opt_units(e.timings.receive),
        Field::RequestHeader(n) => opt_str(header_lookup(e.request.headers@, n@)),
        Field::ResponseHeader(n) => opt_str(header_lookup(e.response.headers@, n@)),
        Field::GqlOperationName => graphql_field(e, "operationName"@),
        Field::GqlOperationType => graphql_operation_type(e),
        Field::GqlQuery => graphql_field(e, "query"@),
        Field::IsGraphQL => Some(Lit::Bool(graphql_request(e))),
    }
}

fn is_name(n: &Vec<char>, name: &str) -> (r: bool)
    ensures
        r == (n@ == name@),
{
    same_chars(n, &chars_of(name))
}

/// See `plain_field`.
fn plain_field_exec(n: &Vec<char>) -> (r: Option<Field>)
    ensures
        r == plain_field(n@),
{
    if is_name(n, "method") {
        Some(Field::Method)
    } else if is_name(n, "url") {
        Some(Field::Url)
    } else if is_name(n, "host") {
        Some(Field::Host)
    } else if is_name(n, "domain") {
        Some(Field::Domain)
    } else if is_name(n, "path") {
        Some(Field::Path)
    } else if is_name(n, "scheme") || is_name(n, "protocol") {
        Some(Field::Scheme)
    } else if is_name(n, "query") || is_name(n, "querystring") || is_name(n, "query_string") {
        Some(Field::Query)
    } else if is_name(n, "status") {
        Some(Field::Status)
    } else if is_name(n, "statustext") || is_name(n, "status_text") {
        Some(Field::StatusText)
    } else if is_name(n, "time") {
        Some(Field::Time)
    } else if is_name(n, "starteddatetime") || is_name(n, "started_date_time") {
        Some(Field::StartedDateTime)
    } else if is_name(n, "serveripaddress") || is_name(n, "server_ip_address") || is_name(
        n,
        "serverip",
    ) {
        Some(Field::ServerIpAddress)
    } else if is_name(n, "request.httpversion") || is_name(n, "request.http_version") {
        Some(Field::RequestHttpVersion)
    } else if is_name(n, "request.headerssize") || is_name(n, "request.headers_size") {
        Some(Field::RequestHeadersSize)
    } else if is_name(n, "request.bodysize") || is_name(n, "request.body_size") {
        Some(Field::RequestBodySize)
    } else if is_name(n, "response.httpversion") || is_name(n, "response.http_version") {
        Some(Field::ResponseHttpVersion)
    } else if is_name(n, "response.headerssize") || is_name(n, "response.headers_size") {
        Some(Field::ResponseHeadersSize)
    } else if is_name(n, "response.bodysize") || is_name(n, "response.body_size") || is_name(
        n,
        "bodysize",
    ) || is_name(n, "body_size") {
        Some(Field::ResponseBodySize)
    } else if is_name(n, "contenttype") || is_name(n, "content_type") || is_name(
        n,
        "response.contenttype",
    ) {
        Some(Field::ContentType)
    } else if is_name(n, "contentsize") || is_name(n, "content_size") || is_name(
        n,
        "response.content.size",
    ) {
        Some(Field::ContentSize)
    } else if is_name(n, "timings.blocked") || is_name(n, "blocked") {
        Some(Field::TimingBlocked)
    } else if is_name(n, "timings.dns") || is_name(n, "dns") {
        Some(Field::TimingDns)
    } else if is_name(n, "timings.connect") || is_name(n, "connect") {
        Some(Field::TimingConnect)
    } else if is_name(n, "timings.ssl") || is_name(n, "ssl") {
        Some(Field::TimingSsl)
    } else if is_name(n, "timings.send") || is_name(n, "send") {
        Some(Field::TimingSend)
    } else if is_name(n, "timings.wait") || is_name(n, "wait") {
        Some(Field::TimingWait)
    } else if is_name(n, "timings.receive") || is_name(n, "receive") {
        Some(Field::TimingReceive)
    } else if is_name(n, "gql.operation") || is_name(n, "gql.operationname") || is_name(
        n,
        "operationname",
    ) {
        Some(Field::GqlOperationName)
    } else if is_name(n, "gql.type") || is_name(n, "gql.operationtype") || is_name(
        n,
        "operationtype",
    ) {
        Some(Field::GqlOperationType)
    } else if is_name(n, "gql.query") {
        Some(Field::GqlQuery)
    } else if is_name(n, "gql.isgraphql") || is_name(n, "isgraphql") {
        Some(Field::IsGraphQL)
    } else {
        None
    }
}

/// Whether `t` has the call shape `<prefix>...)`.
fn is_call_exec(t: &Vec<char>, prefix: &str) -> (r: bool)
    ensures
        r == is_call(t@, prefix@),
{
    proof {
        reveal_strlit(")");
    }
    starts_with_exec(t, &chars_of(prefix)) && ends_with_exec(t, &chars_of(")"))
}

/// The unquoted argument of the call `t` that opens with `prefix`.
fn call_arg_exec(t: &str, prefix: &str) -> (r: String)
    requires
        is_call(t@, prefix@),
        prefix@.len() > 0,
        prefix@.last() == '(',
    ensures
        r@ == call_arg(t@, prefix@),
{
    proof {
        reveal_strlit(")");
        assert(t@.subrange(t@.len() - 1, t@.len() as int)[0] == t@.last());
        assert(t@.subrange(0, prefix@.len() as int)[prefix@.len() - 1] == prefix@.last());
    }
    let n = t.unicode_len();
    let k = prefix.unicode_len();
    unquote_trimmed(t.substring_char(k, n - 1))
}

impl Field {
    /// Resolves a field name (see `names_field`); unknown names are refused.
    pub fn parse(s: &str) -> (r: Result<Field, FilterError>)
        ensures
            r is Ok <==> field_known(s@),
            r matches Ok(f) ==> names_field(f, s@),
            r matches Err(e) ==> e is UnknownField,
    {
        proof {
            reveal_strlit("request.header(");
            reveal_strlit("response.header(");
        }
        let t = trim_str(s);
        let cs = chars_of(t);
        if is_call_exec(&cs, "request.header(") {
            return Ok(Field::RequestHeader(call_arg_exec(t, "request.header(")));
        }
        if is_call_exec(&cs, "response.header(") {
            return Ok(Field::ResponseHeader(call_arg_exec(t, "response.header(")));
        }
        match plain_field_exec(&ascii_lower_exec(&cs)) {
            Some(f) => Ok(f),
            None => Err(FilterError::UnknownField(t.to_owned())),
        }
    }

    /// See `field_value`.
    pub fn get_value(&self, entry: &Entry) -> (r: Option<Value>)
        ensures
            match field_value(*self, *entry) {
                Some(l) => r matches Some(v) && v@ == l,
                None => r is None,
            },
    {
        match self {
            Field::Method => Some(Value::String(entry.request.method.clone())),
            Field::Url => Some(Value::String(entry.request.url.clone())),
            Field::Host | Field::Domain => Some(Value::String(extract_host(entry.request.url.as_str()))),
            Field::Path => Some(Value::String(extract_path(entry.request.url.as_str()))),
            Field::Scheme => Some(Value::String(extract_scheme(entry.request.url.as_str()))),
            Field::Query => match extract_query(entry.request.url.as_str()) {
                Some(q) => Some(Value::String(q)),
                None => None,
            },
            Field::Status => Some(Value::Number(Decimal::from_int(entry.response.status as i64))),
            Field::StatusText => Some(Value::String(entry.response.status_text.clone())),
            Field::Time => Some(Value::Number(entry.time)),
            Field::StartedDateTime => Some(Value::String(entry.started_date_time.clone())),
            Field::ServerIpAddress => match &entry.server_ip_address {
                Some(s) => Some(Value::String(s.clone())),
                None => None,
            },
            Field::RequestHttpVersion => Some(Value::String(entry.request.http_version.clone())),
            Field::RequestHeadersSize => Some(Value::Number(Decimal::from_int(entry.request.headers_size))),
            Field::RequestBodySize => Some(Value::Number(Decimal::from_int(entry.request.body_size))),
            Field::ResponseHttpVersion => Some(Value::String(entry.response.http_version.clone())),
            Field::ResponseHeadersSize => Some(Value::Number(Decimal::from_int(entry.response.headers_size))),
            Field::ResponseBodySize => Some(Value::Number(Decimal::from_int(entry.response.body_size))),
            Field::ContentType => match entry.content_type() {
                Some(s) => Some(Value::String(s.to_owned())),
                None => None,
            },
            Field::ContentSize => Some(Value::Number(Decimal::from_int(entry.response.content.size))),
            Field::TimingBlocked => number_of(entry.timings.blocked),
            Field::TimingDns => number_of(entry.timings.dns),
            Field::TimingConnect => number_of(entry.timings.connect),
            Field::TimingSsl => number_of(entry.timings.ssl),
            Field::TimingSend => number_of(entry.timings.send),
            Field::TimingWait => number_of(entry.timings.wait),
            Field::TimingReceive => number_of(entry.timings.receive),
            Field::RequestHeader(name) => match entry.request_header(name.as_str()) {
                Some(s) => Some(Value::String(s.to_owned())),
                None => None,
            },
            Field::ResponseHeader(name) => match entry.response_header(name.as_str()) {
                Some(s) => Some(Value::String(s.to_owned())),
                None => None,
            },
            Field::GqlOperationName => extract_graphql_field(entry, "operationName"),
            Field::GqlOperationType => extract_graphql_operation_type(entry),
            Field::GqlQuery => extract_graphql_field(entry, "query"),
            Field::IsGraphQL => Some(Value::Bool(is_graphql_request(entry))),
        }
    }

    /// The field's value as text (see `Value::to_string`).
    pub fn get_string(&self, entry: &Entry) -> (r: Option<String>)
        ensures
            match field_value(*self, *entry) {
                Some(l) => r matches Some(s) && s@ == crate::value::lit_text(l),
                None => r is None,
            },
    {
        match self.get_value(entry) {
            Some(v) => Some(v.to_string()),
            None => None,
        }
    }
}

fn number_of(d: Option<Decimal>) -> (r: Option<Value>)
    ensures
        match opt_units(d) {
            Some(l) => r matches Some(v) && v@ == l,
            None => r is None,
        },
{
    match d {
        Some(x) => Some(Value::Number(x)),
        None => None,
    }
}

} // verus!
