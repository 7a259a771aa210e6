//! Properties that hold of every record and every expression.
use vstd::prelude::*;
use crate::expr::{FilterExpr, eval};
use crate::field::{Field, field_value};
use crate::graphql::{graphql_request, Member, member_lookup, body_object, body_mime_lower, opens_with_keyword, operation_type_of};
use crate::har::{Entry, header_lookup};
use crate::text::upper_of;
use crate::value::{Lit, Value, literal_lit, is_quoted, near};
use crate::decimal::{int_text, lemma_int_text_units, is_digit, literal_units, ONE, INT_LIMIT};
use crate::expr::{
    parse_error, parses_to, wrapped, top_level, not_word, method_call, split_comparison,
    comparison_error, comparison_as, comparison_node, op_text, CmpOp, lemma_scan_top, scan_top,
    balanced, balanced_from,
};
use crate::field::{plain_field, names_field, field_known, is_call};
use crate::pattern::regex_finds;
use crate::text::{trim, trim_start, trim_end, is_ws, find_first, occurs_at, lemma_find_from, contains, has_prefix};

verus! {

/// A field that a record lacks is unequal to every value: `f != v` holds
/// and `f == v` fails, whatever `v` is.
pub proof fn law_absent_field(f: Field, v: Value, r: Entry)
    requires
        field_value(f, r) is None,
    ensures
        eval(FilterExpr::Ne(f, v), r),
        !eval(FilterExpr::Eq(f, v), r),
{
}

/// De Morgan: `!(a && b)` and `!a || !b` agree on every record.
pub proof fn law_de_morgan(a: FilterExpr, b: FilterExpr, r: Entry)
    ensures
        eval(FilterExpr::Not(Box::new(FilterExpr::And(Box::new(a), Box::new(b)))), r) == eval(
            FilterExpr::Or(Box::new(FilterExpr::Not(Box::new(a))), Box::new(FilterExpr::Not(Box::new(b)))),
            r,
        ),
{
    reveal_with_fuel(eval, 3);
}

/// Only a POST can be a GraphQL request: a record whose method does not
/// uppercase to `POST` never is one, whatever its body.
pub proof fn law_graphql_needs_post(r: Entry)
    requires
        upper_of(r.request.method@) != "POST"@,
    ensures
        !graphql_request(r),
        field_value(Field::IsGraphQL, r) == Some(Lit::Bool(false)),
{
}

/// A POST whose body is declared JSON and reads as an object with an
/// `operationName` string `GetUser` and a `query` string
/// `query GetUser { user { id } }` is a GraphQL request named `GetUser`
/// of type `query`.
pub proof fn law_graphql_get_user(r: Entry, ms: Seq<(Seq<char>, Member)>)
    requires
        upper_of(r.request.method@) == "POST"@,
        contains(body_mime_lower(r), "json"@),
        body_object(r) == Some(ms),
        member_lookup(ms, "operationName"@) == Some(Member::Text("GetUser"@)),
        member_lookup(ms, "query"@) == Some(Member::Text("query GetUser { user { id } }"@)),
    ensures
        field_value(Field::IsGraphQL, r) == Some(Lit::Bool(true)),
        field_value(Field::GqlOperationName, r) == Some(Lit::Str("GetUser"@)),
        field_value(Field::GqlOperationType, r) == Some(Lit::Str("query"@)),
{
    reveal_strlit("query GetUser { user { id } }");
    reveal_strlit("query");
    let q = "query GetUser { user { id } }"@;
    assert(trim_start(q) == q);
    assert(q.subrange(0, 5) =~= "query"@);
    assert(q.subrange(5, q.len() as int)[0] == ' ');
    assert(opens_with_keyword(q, "query"@));
    assert(operation_type_of(q) == Some("query"@));
}

/// `method.matches(/get/i)` parses to a pattern test of the method with
/// the pattern `(?i)get`, and holds of a record exactly when that pattern
/// finds a match in its method.
#[verifier::rlimit(100)]
pub proof fn law_method_matches_get(e: FilterExpr, r: Entry)
    requires
        parses_to(e, "method.matches(/get/i)"@),
    ensures
        e matches FilterExpr::Matches(f, p) && f == Field::Method && p.source() == "(?i)get"@,
        eval(e, r) == regex_finds("(?i)get"@, r.request.method@),
{
    reveal_strlit("method.matches(/get/i)");
    reveal_strlit("(?i)get");
    reveal_strlit("(?i)");
    reveal_strlit("/i");
    reveal_strlit("method");
    reveal_strlit("request.header(");
    reveal_strlit("response.header(");
    reveal_strlit("contains(");
    reveal_strlit("startsWith(");
    reveal_strlit("endsWith(");
    reveal_strlit("matches(");
    reveal_strlit(")");
    reveal_strlit("||");
    reveal_strlit("&&");
    reveal_strlit("not ");
    let s = "method.matches(/get/i)"@;
    assert(s.len() == 22);
    assert forall|j: int| 0 <= j < s.len() implies #[trigger] s[j] != '|' && s[j] != '&' by {}
    lemma_trim_keeps(s);
    lemma_absent(s, "||"@);
    lemma_absent(s, "&&"@);
    assert(!wrapped(s));
    assert(!not_word(s)) by {
        assert(s.subrange(0, 4)[0] == 'm');
        assert(crate::text::ascii_lower(s.subrange(0, 4))[0] == 'm');
    }
    lemma_find_from(s, seq!['.'], 0);
    assert(occurs_at(s, seq!['.'], 6)) by {
        assert(s.subrange(6, 7) =~= seq!['.']);
    }
    assert forall|k: int| 0 <= k < 6 implies !occurs_at(s, seq!['.'], k) by {
        if occurs_at(s, seq!['.'], k) {
            assert(s.subrange(k, k + 1)[0] == s[k]);
        }
    }
    assert(find_first(s, seq!['.']) == Some(6int));
    let rest = s.subrange(7, 22);
    assert(!has_prefix(rest, "contains("@)) by {
        assert(rest.subrange(0, 9)[0] == 'm');
    }
    assert(!has_prefix(rest, "startsWith("@)) by {
        assert(rest.subrange(0, 11)[0] == 'm');
    }
    assert(!has_prefix(rest, "endsWith("@)) by {
        assert(rest.subrange(0, 9)[0] == 'm');
    }
    assert(has_prefix(rest, "matches("@)) by {
        assert(rest.subrange(0, 8) =~= "matches("@);
    }
    assert(crate::text::has_suffix(rest, ")"@)) by {
        assert(rest.subrange(14, 15) =~= ")"@);
    }
    let name = s.subrange(0, 6);
    assert(name =~= "method"@);
    let arg = rest.subrange(8, 14);
    assert(method_call(s) == Some((crate::expr::CallKind::Matches, name, arg)));
    lemma_trim_keeps(arg);
    assert(crate::text::has_suffix(arg, "/i"@)) by {
        assert(arg.subrange(4, 6) =~= "/i"@);
    }
    assert(crate::expr::regex_source(arg) == "(?i)get"@) by {
        assert("(?i)"@ + arg.subrange(1, 4) =~= "(?i)get"@);
    }
    lemma_trim_keeps(name);
    assert(!has_prefix(name, "request.header("@));
    assert(!has_prefix(name, "response.header("@));
    assert(crate::text::ascii_lower(name) =~= "method"@);
    assert(plain_field("method"@) == Some(Field::Method));
    assert(comparison_as(e, s));
}

/// The first `c` in `s` is at `i` when `s[i]` is `c` and no earlier one is.
proof fn lemma_first_char(s: Seq<char>, c: char, i: int)
    requires
        0 <= i < s.len(),
        s[i] == c,
        forall|k: int| 0 <= k < i ==> s[k] != c,
    ensures
        find_first(s, seq![c]) == Some(i),
{
    lemma_find_from(s, seq![c], 0);
    assert(occurs_at(s, seq![c], i)) by {
        assert(s.subrange(i, i + 1) =~= seq![c]);
    }
    if find_first(s, seq![c]) is Some {
        let k = find_first(s, seq![c])->Some_0;
        assert(s.subrange(k, k + 1)[0] == s[k]);
    }
}

/// The URL `https://api.example.com:8080/v1/users?id=1` has host and
/// domain `api.example.com`, path `/v1/users`, scheme `https` and query `id=1`.
#[verifier::rlimit(100)]
pub proof fn law_url_parts_example(r: Entry)
    requires
        r.request.url@ == "https://api.example.com:8080/v1/users?id=1"@,
    ensures
        field_value(Field::Host, r) == Some(Lit::Str("api.example.com"@)),
        field_value(Field::Domain, r) == Some(Lit::Str("api.example.com"@)),
        field_value(Field::Path, r) == Some(Lit::Str("/v1/users"@)),
        field_value(Field::Scheme, r) == Some(Lit::Str("https"@)),
        field_value(Field::Query, r) == Some(Lit::Str("id=1"@)),
{
    reveal_strlit("https://api.example.com:8080/v1/users?id=1");
    reveal_strlit("api.example.com");
    reveal_strlit("/v1/users");
    reveal_strlit("https");
    reveal_strlit("id=1");
    reveal_strlit("https://");
    let u = "https://api.example.com:8080/v1/users?id=1"@;
    assert(u.len() == 42);
    assert(has_prefix(u, "https://"@)) by {
        assert(u.subrange(0, 8) =~= "https://"@);
    }
    let w = u.subrange(8, 42);
    assert(crate::url::strip_scheme(u) == w);
    lemma_first_char(w, '/', 20);
    let hp = w.subrange(0, 20);
    lemma_first_char(hp, ':', 15);
    assert(hp.subrange(0, 15) =~= "api.example.com"@);
    assert(crate::url::url_host(u) == "api.example.com"@);
    let pq = w.subrange(20, 34);
    lemma_first_char(pq, '?', 9);
    assert(pq.subrange(0, 9) =~= "/v1/users"@);
    assert(crate::url::url_path(u) == "/v1/users"@);
    assert(crate::url::url_scheme(u) == "https"@);
    lemma_first_char(u, '?', 37);
    assert(u.subrange(38, 42) =~= "id=1"@);
    assert(crate::url::url_query(u) == Some("id=1"@));
}

/// When a record has a request header `name`, `request.header(name) != ""`
/// holds exactly when that header's value is not empty.
pub proof fn law_present_header_not_empty(n: String, v: Value, r: Entry)
    requires
        v@ == Lit::Str(Seq::empty()),
        header_lookup(r.request.headers@, n@) is Some,
    ensures
        eval(FilterExpr::Ne(Field::RequestHeader(n), v), r) == (header_lookup(
            r.request.headers@,
            n@,
        )->Some_0.len() > 0),
{
    let val = header_lookup(r.request.headers@, n@)->Some_0;
    if val.len() == 0 {
        assert(val =~= Seq::<char>::empty());
    }
}

/// `request.header("Authorization") != ""` splits at its `!=`: no
/// logical operator, negation, parentheses or method call come first.
#[verifier::rlimit(100)]
proof fn lemma_authorization_shape()
    ensures
        ({
            let s = "request.header(\"Authorization\") != \"\""@;
            &&& s.len() == 37
            &&& trim(s) == s
            &&& !wrapped(s)
            &&& top_level(s, "||"@) is None
            &&& top_level(s, "&&"@) is None
            &&& s[0] != '!'
            &&& !not_word(s)
            &&& method_call(s) is None
            &&& split_comparison(s) == Some((CmpOp::Ne, 32int))
        }),
{
    reveal_strlit("request.header(\"Authorization\") != \"\"");
    reveal_strlit("Authorization");
    reveal_strlit("request.header(");
    reveal_strlit("response.header(");
    reveal_strlit("contains(");
    reveal_strlit("startsWith(");
    reveal_strlit("endsWith(");
    reveal_strlit("matches(");
    reveal_strlit(")");
    reveal_strlit("||");
    reveal_strlit("&&");
    reveal_strlit("not ");
    reveal_strlit("==");
    reveal_strlit("!=");
    let s = "request.header(\"Authorization\") != \"\""@;
    assert(s.len() == 37);
    assert forall|j: int| 0 <= j < s.len() implies #[trigger] s[j] != '|' && s[j] != '&' by {}
    lemma_trim_keeps(s);
    lemma_absent(s, "||"@);
    lemma_absent(s, "&&"@);
    assert(!wrapped(s));
    assert(!not_word(s)) by {
        assert(s.subrange(0, 4)[0] == 'r');
        assert(crate::text::ascii_lower(s.subrange(0, 4))[0] == 'r');
    }
    // the first dot opens no method call
    lemma_find_from(s, seq!['.'], 0);
    assert(occurs_at(s, seq!['.'], 7)) by {
        assert(s.subrange(7, 8) =~= seq!['.']);
    }
    assert forall|k: int| 0 <= k < 7 implies !occurs_at(s, seq!['.'], k) by {
        if occurs_at(s, seq!['.'], k) {
            assert(s.subrange(k, k + 1)[0] == s[k]);
        }
    }
    assert(find_first(s, seq!['.']) == Some(7int));
    let rest = s.subrange(8, 37);
    assert(rest[0] == 'h');
    assert(!has_prefix(rest, "contains("@)) by {
        assert(rest.subrange(0, 9)[0] == 'h');
    }
    assert(!has_prefix(rest, "startsWith("@)) by {
        assert(rest.subrange(0, 11)[0] == 'h');
    }
    assert(!has_prefix(rest, "endsWith("@)) by {
        assert(rest.subrange(0, 9)[0] == 'h');
    }
    assert(!has_prefix(rest, "matches("@)) by {
        assert(rest.subrange(0, 8)[0] == 'h');
    }
    assert(method_call(s) is None);
    // the operator is the `!=` at 32
    lemma_find_from(s, "=="@, 0);
    lemma_find_from(s, "!="@, 0);
    assert forall|k: int| 0 <= k < s.len() implies !occurs_at(s, "=="@, k) by {
        if occurs_at(s, "=="@, k) {
            assert(s.subrange(k, k + 2)[0] == s[k]);
            assert(s.subrange(k, k + 2)[1] == s[k + 1]);
        }
    }
    assert(occurs_at(s, "!="@, 32)) by {
        assert(s.subrange(32, 34) =~= "!="@);
    }
    assert forall|k: int| 0 <= k < 32 implies !occurs_at(s, "!="@, k) by {
        if occurs_at(s, "!="@, k) {
            assert(s.subrange(k, k + 2)[0] == s[k]);
        }
    }
    assert(split_comparison(s) == Some((CmpOp::Ne, 32int)));
}

/// The filter `request.header("Authorization") != ""` parses, and on a
/// record that has an `Authorization` request header it holds exactly when
/// that header's value is not empty.
#[verifier::rlimit(100)]
pub proof fn law_authorization_header(e: FilterExpr, r: Entry)
    requires
        parses_to(e, "request.header(\"Authorization\") != \"\""@),
        header_lookup(r.request.headers@, "Authorization"@) is Some,
    ensures
        parse_error("request.header(\"Authorization\") != \"\""@) is None,
        eval(e, r) == (header_lookup(r.request.headers@, "Authorization"@)->Some_0.len() > 0),
{
    reveal_strlit("request.header(\"Authorization\") != \"\"");
    reveal_strlit("Authorization");
    reveal_strlit("request.header(");
    reveal_strlit(")");
    reveal_strlit("!=");
    let s = "request.header(\"Authorization\") != \"\""@;
    lemma_authorization_shape();
    // the field text
    let fs = s.subrange(0, 32);
    let t = s.subrange(0, 31);
    assert(fs.drop_last() =~= t);
    assert(trim_start(fs) == fs);
    lemma_trim_keeps(t);
    assert(trim(fs) == t);
    assert(has_prefix(t, "request.header("@)) by {
        assert(t.subrange(0, 15) =~= "request.header("@);
    }
    assert(crate::text::has_suffix(t, ")"@)) by {
        assert(t.subrange(30, 31) =~= ")"@);
    }
    let q = t.subrange(15, 30);
    lemma_trim_keeps(q);
    assert(q.subrange(1, 14) =~= "Authorization"@);
    assert(crate::field::call_arg(t, "request.header("@) == "Authorization"@);
    assert(field_known(t));
    // the literal text
    let vs = s.subrange(34, 37);
    assert(vs.drop_first() =~= s.subrange(35, 37));
    lemma_trim_keeps(s.subrange(35, 37));
    assert(trim(vs) == s.subrange(35, 37));
    assert(literal_lit(s.subrange(35, 37)) == Lit::Str(Seq::empty())) by {
        assert(s.subrange(35, 37).subrange(1, 1) =~= Seq::<char>::empty());
    }
    assert(comparison_error(s) is None);
    assert(comparison_node(e, CmpOp::Ne, t, s.subrange(35, 37)));
    let n = e->Ne_0->RequestHeader_0;
    let v = e->Ne_1;
    law_present_header_not_empty(n, v, r);
}

/// Scanning over characters that are neither quotes nor parentheses, and
/// where no match can be taken, leaves the scan state as it was.
proof fn lemma_scan_skip(s: Seq<char>, pat: Seq<char>, i: int, j: int, depth: int, q: char)
    requires
        0 <= i <= j <= s.len(),
        forall|k: int|
            i <= k < j ==> {
                &&& #[trigger] s[k] != '"'
                &&& s[k] != '\''
                &&& s[k] != '('
                &&& s[k] != ')'
                &&& (depth != 0 || !occurs_at(s, pat, k))
            },
    ensures
        scan_top(s, pat, i, depth, false, q) == scan_top(s, pat, j, depth, false, q),
    decreases j - i,
{
    if i < j {
        lemma_scan_skip(s, pat, i + 1, j, depth, q);
    }
}

/// Inside a quote, characters other than the quote leave the scan state as it was.
proof fn lemma_scan_quoted(s: Seq<char>, pat: Seq<char>, i: int, j: int, depth: int, q: char)
    requires
        0 <= i <= j <= s.len(),
        forall|k: int| i <= k < j ==> #[trigger] s[k] != q,
    ensures
        scan_top(s, pat, i, depth, true, q) == scan_top(s, pat, j, depth, true, q),
    decreases j - i,
{
    if i < j {
        lemma_scan_quoted(s, pat, i + 1, j, depth, q);
    }
}

/// Text without parentheses is balanced exactly from depth zero.
proof fn lemma_balanced_plain(s: Seq<char>, d: int)
    requires
        d >= 0,
        forall|k: int| 0 <= k < s.len() ==> #[trigger] s[k] != '(' && s[k] != ')',
    ensures
        balanced_from(s, d) == (d == 0),
    decreases s.len(),
{
    if s.len() > 0 {
        assert forall|k: int| 0 <= k < s.drop_first().len() implies #[trigger] s.drop_first()[k]
            != '(' && s.drop_first()[k] != ')' by {
            assert(s.drop_first()[k] == s[k + 1]);
        }
        lemma_balanced_plain(s.drop_first(), d);
    }
}

/// Parsing looks only at the trimmed text.
proof fn lemma_retrim(e: FilterExpr, x: Seq<char>, t: Seq<char>)
    requires
        trim(x) == t,
        trim(t) == t,
    ensures
        parses_to(e, x) == parses_to(e, t),
        parse_error(x) == parse_error(t),
{
}

/// `!rest`, with no `|` or `&` anywhere, parses as the negation of `rest`.
proof fn lemma_parse_bang(e: FilterExpr, s: Seq<char>)
    requires
        s.len() > 1,
        s[0] == '!',
        !is_ws(s.last()),
        forall|k: int| 0 <= k < s.len() ==> #[trigger] s[k] != '|' && s[k] != '&',
    ensures
        parse_error(s) == parse_error(s.subrange(1, s.len() as int)),
        parses_to(e, s) ==> (e matches FilterExpr::Not(x) && parses_to(*x, s.subrange(1, s.len() as int))),
{
    reveal_strlit("||");
    reveal_strlit("&&");
    lemma_trim_keeps(s);
    lemma_absent(s, "||"@);
    lemma_absent(s, "&&"@);
}

/// `method == "GET"` parses to the comparison of the method with the string `GET`.
proof fn lemma_parse_method_get(e: FilterExpr)
    ensures
        parse_error("method == \"GET\""@) is None,
        parses_to(e, "method == \"GET\""@) ==> (e matches FilterExpr::Eq(f, v) && f
            == Field::Method && v@ == Lit::Str("GET"@)),
{
    reveal_strlit("method == \"GET\"");
    reveal_strlit("method");
    reveal_strlit("GET");
    reveal_strlit("request.header(");
    reveal_strlit("response.header(");
    reveal_strlit("||");
    reveal_strlit("&&");
    reveal_strlit("not ");
    reveal_strlit("==");
    let s = "method == \"GET\""@;
    assert(s.len() == 15);
    assert forall|j: int| 0 <= j < s.len() implies #[trigger] s[j] != '|' && s[j] != '&' && s[j]
        != '.' by {}
    lemma_trim_keeps(s);
    lemma_absent(s, "||"@);
    lemma_absent(s, "&&"@);
    lemma_absent(s, seq!['.']);
    assert(!wrapped(s));
    assert(!not_word(s)) by {
        assert(s.subrange(0, 4)[0] == 'm');
        assert(crate::text::ascii_lower(s.subrange(0, 4))[0] == 'm');
    }
    assert(method_call(s) is None);
    lemma_find_from(s, "=="@, 0);
    assert(occurs_at(s, "=="@, 7)) by {
        assert(s.subrange(7, 9) =~= "=="@);
    }
    assert forall|k: int| 0 <= k < 7 implies !occurs_at(s, "=="@, k) by {
        if occurs_at(s, "=="@, k) {
            assert(s.subrange(k, k + 2)[0] == s[k]);
        }
    }
    assert(split_comparison(s) == Some((CmpOp::Eq, 7int)));
    let fs = s.subrange(0, 7);
    let name = s.subrange(0, 6);
    assert(name =~= "method"@);
    assert(fs.drop_last() =~= name);
    assert(trim_start(fs) == fs);
    lemma_trim_keeps(name);
    assert(trim(fs) == name);
    assert(!has_prefix(name, "request.header("@));
    assert(!has_prefix(name, "response.header("@));
    assert(crate::text::ascii_lower(name) =~= "method"@);
    assert(plain_field("method"@) == Some(Field::Method));
    assert(field_known(name));
    let vs = s.subrange(9, 15);
    let lit = s.subrange(10, 15);
    assert(vs.drop_first() =~= lit);
    lemma_trim_keeps(lit);
    assert(trim(vs) == lit);
    assert(literal_lit(lit) == Lit::Str("GET"@)) by {
        assert(lit.subrange(1, 4) =~= "GET"@);
    }
    assert(comparison_error(s) is None);
    assert(parses_to(e, s) ==> comparison_node(e, CmpOp::Eq, name, lit));
}

/// De Morgan through the parser: `!(status == 200 && method == "GET")` and
/// `!status == 200 || !method == "GET"` parse, and agree on every record.
pub proof fn law_de_morgan_parsed(e1: FilterExpr, e2: FilterExpr, r: Entry)
    requires
        parses_to(e1, "!(status == 200 && method == \"GET\")"@),
        parses_to(e2, "!status == 200 || !method == \"GET\""@),
    ensures
        parse_error("!(status == 200 && method == \"GET\")"@) is None,
        parse_error("!status == 200 || !method == \"GET\""@) is None,
        eval(e1, r) == eval(e2, r),
{
    reveal_strlit("!(status == 200 && method == \"GET\")");
    reveal_strlit("!status == 200 || !method == \"GET\"");
    reveal_strlit("(status == 200 && method == \"GET\")");
    reveal_strlit("status == 200 && method == \"GET\"");
    reveal_strlit("status == 200");
    reveal_strlit("method == \"GET\"");
    reveal_strlit("status == ");
    reveal_strlit("||");
    reveal_strlit("&&");
    reveal_with_fuel(eval, 3);
    lemma_parse_status_eq(200, e1);
    lemma_int_text_units(200);
    reveal_strlit("200");
    assert(int_text(200) =~= "200"@) by {
        reveal_with_fuel(crate::decimal::nat_text, 3);
    }
    let st = "status == 200"@;
    assert(st =~= "status == "@ + int_text(200));
    let mg = "method == \"GET\""@;
    // the first text: `!` then a parenthesised conjunction
    let s1 = "!(status == 200 && method == \"GET\")"@;
    assert(s1.len() == 35);
    let x = s1.subrange(1, 35);
    assert(x =~= "(status == 200 && method == \"GET\")"@);
    assert forall|k: int| 0 <= k < s1.len() implies #[trigger] s1[k] != '|' && s1[k] != '&' || 16
        <= k <= 17 by {}
    // no top-level `&&`: the one there sits inside the parentheses
    assert(top_level(s1, "&&"@) is None) by {
        assert(!occurs_at(s1, "&&"@, 0)) by {
            assert(s1.subrange(0, 2)[0] == s1[0]);
        }
        assert(scan_top(s1, "&&"@, 0, 0, false, '"') == scan_top(s1, "&&"@, 1, 0, false, '"'));
        assert(scan_top(s1, "&&"@, 1, 0, false, '"') == scan_top(s1, "&&"@, 2, 1, false, '"'));
        lemma_scan_skip(s1, "&&"@, 2, 29, 1, '"');
        assert(scan_top(s1, "&&"@, 29, 1, false, '"') == scan_top(s1, "&&"@, 30, 1, true, '"'));
        lemma_scan_quoted(s1, "&&"@, 30, 33, 1, '"');
        assert(scan_top(s1, "&&"@, 33, 1, true, '"') == scan_top(s1, "&&"@, 34, 1, false, '"'));
        assert(scan_top(s1, "&&"@, 34, 1, false, '"') == scan_top(s1, "&&"@, 35, 0, false, '"'));
    }
    assert forall|k: int| 0 <= k < s1.len() implies #[trigger] s1[k] != '|' by {}
    lemma_trim_keeps(s1);
    lemma_absent(s1, "||"@);
    assert(!wrapped(s1));
    assert(parse_error(s1) == parse_error(x));
    assert(parses_to(e1, s1) ==> (e1 matches FilterExpr::Not(y) && parses_to(*y, x)));
    // inside the parentheses
    let y = x.subrange(1, 33);
    assert(y =~= "status == 200 && method == \"GET\""@);
    assert forall|k: int| 0 <= k < y.len() implies #[trigger] y[k] != '(' && y[k] != ')' by {}
    lemma_balanced_plain(y, 0);
    lemma_trim_keeps(x);
    assert(wrapped(x));
    assert(top_level(y, "&&"@) == Some(14int)) by {
        assert(occurs_at(y, "&&"@, 14)) by {
            assert(y.subrange(14, 16) =~= "&&"@);
        }
        assert forall|k: int| 0 <= k < 14 implies !occurs_at(y, "&&"@, k) by {
            if occurs_at(y, "&&"@, k) {
                assert(y.subrange(k, k + 2)[0] == y[k]);
            }
        }
        lemma_scan_skip(y, "&&"@, 0, 14, 0, '"');
    }
    assert forall|k: int| 0 <= k < y.len() implies #[trigger] y[k] != '|' by {}
    lemma_trim_keeps(y);
    lemma_absent(y, "||"@);
    assert(!wrapped(y));
    let yl = y.subrange(0, 14);
    let yr = y.subrange(16, 32);
    assert(trim_start(yl) == yl);
    assert(yl.drop_last() =~= st);
    lemma_trim_keeps(st);
    assert(trim(yl) == st);
    assert(yr.drop_first() =~= mg);
    lemma_trim_keeps(mg);
    assert(trim(yr) == mg);
    lemma_parse_method_get(e1);
    // the second text: a disjunction of two negations
    let s2 = "!status == 200 || !method == \"GET\""@;
    assert(s2.len() == 34);
    assert(top_level(s2, "||"@) == Some(15int)) by {
        assert(occurs_at(s2, "||"@, 15)) by {
            assert(s2.subrange(15, 17) =~= "||"@);
        }
        assert forall|k: int| 0 <= k < 15 implies !occurs_at(s2, "||"@, k) by {
            if occurs_at(s2, "||"@, k) {
                assert(s2.subrange(k, k + 2)[0] == s2[k]);
            }
        }
        lemma_scan_skip(s2, "||"@, 0, 15, 0, '"');
    }
    lemma_trim_keeps(s2);
    assert(!wrapped(s2));
    let l2 = s2.subrange(0, 15);
    let r2 = s2.subrange(17, 34);
    let bl = "!"@ + st;
    let br = "!"@ + mg;
    assert(l2.drop_last() =~= bl) by {
        reveal_strlit("!");
    }
    assert(trim_start(l2) == l2) by {
        assert(l2[0] == '!');
    }
    assert(bl.len() == 14 && bl[0] == '!' && bl.last() == '0') by {
        reveal_strlit("!");
    }
    lemma_trim_keeps(bl);
    assert(trim(l2) == bl);
    assert(r2.drop_first() =~= br) by {
        reveal_strlit("!");
    }
    assert(br.len() == 16 && br[0] == '!' && br.last() == '"') by {
        reveal_strlit("!");
    }
    lemma_trim_keeps(br);
    assert(trim(r2) == br);
    assert forall|k: int| 0 <= k < bl.len() implies #[trigger] bl[k] != '|' && bl[k] != '&' by {
        reveal_strlit("!");
    }
    assert forall|k: int| 0 <= k < br.len() implies #[trigger] br[k] != '|' && br[k] != '&' by {
        reveal_strlit("!");
    }
    assert(bl.subrange(1, 14) =~= st) by {
        reveal_strlit("!");
    }
    assert(br.subrange(1, 16) =~= mg) by {
        reveal_strlit("!");
    }
    assert forall|a: FilterExpr| #[trigger] parses_to(a, l2) ==> (a matches FilterExpr::Not(z)
        && parses_to(*z, st)) by {
        lemma_retrim(a, l2, bl);
        lemma_parse_bang(a, bl);
    }
    assert forall|a: FilterExpr| #[trigger] parses_to(a, r2) ==> (a matches FilterExpr::Not(z)
        && parses_to(*z, mg)) by {
        lemma_retrim(a, r2, br);
        lemma_parse_bang(a, br);
    }
    lemma_retrim(e1, l2, bl);
    lemma_parse_bang(e1, bl);
    lemma_parse_bang(e1, br);
    lemma_retrim(e1, r2, br);
    lemma_retrim(e1, yl, st);
    lemma_retrim(e1, yr, mg);
    assert(parse_error(s2) is None);
    assert(parse_error(y) is None);
    assert(parse_error(x) == parse_error(y));
    assert(parse_error(s1) is None);
    // the trees
    let a1 = e1->Not_0->And_0;
    let b1 = e1->Not_0->And_1;
    let a2 = e2->Or_0->Not_0;
    let b2 = e2->Or_1->Not_0;
    let inner = e1->Not_0;
    assert(parses_to(*inner, x));
    assert(parses_to(*inner, y));
    assert(parses_to(*a1, yl) && parses_to(*b1, yr));
    let or_l = e2->Or_0;
    let or_r = e2->Or_1;
    assert(parses_to(*or_l, l2) && parses_to(*or_r, r2));
    assert(parses_to(*a2, st) && parses_to(*b2, mg));
    lemma_retrim(*a1, yl, st);
    lemma_retrim(*b1, yr, mg);
    lemma_parse_status_eq(200, *a1);
    lemma_parse_status_eq(200, *a2);
    lemma_parse_method_get(*b1);
    lemma_parse_method_get(*b2);
}

/// `s` has no whitespace at either end, so trimming keeps it.
proof fn lemma_trim_keeps(s: Seq<char>)
    requires
        s.len() > 0,
        !is_ws(s[0]),
        !is_ws(s.last()),
    ensures
        trim(s) == s,
{
}

/// A pattern whose first character `s` lacks occurs nowhere in `s`.
proof fn lemma_absent(s: Seq<char>, pat: Seq<char>)
    requires
        pat.len() > 0,
        forall|j: int| 0 <= j < s.len() ==> s[j] != pat[0],
    ensures
        find_first(s, pat) is None,
        top_level(s, pat) is None,
{
    lemma_find_from(s, pat, 0);
    lemma_scan_top(s, pat, 0, 0, false, '"');
    if find_first(s, pat) is Some {
        let k = find_first(s, pat)->Some_0;
        assert(s.subrange(k, k + pat.len())[0] == s[k]);
    }
    if top_level(s, pat) is Some {
        let k = top_level(s, pat)->Some_0;
        assert(s.subrange(k, k + pat.len())[0] == s[k]);
    }
}

/// `status` is the name of the status field.
proof fn lemma_status_name()
    ensures
        trim("status"@) == "status"@,
        plain_field(crate::text::ascii_lower("status"@)) == Some(Field::Status),
        !is_call("status"@, "request.header("@),
        !is_call("status"@, "response.header("@),
        field_known("status"@),
        forall|f: Field| names_field(f, "status"@) <==> f == Field::Status,
{
    reveal_strlit("status");
    reveal_strlit("request.header(");
    reveal_strlit("response.header(");
    reveal_strlit("method");
    reveal_strlit("url");
    reveal_strlit("host");
    reveal_strlit("domain");
    reveal_strlit("path");
    reveal_strlit("scheme");
    reveal_strlit("protocol");
    reveal_strlit("query");
    reveal_strlit("querystring");
    reveal_strlit("query_string");
    lemma_trim_keeps("status"@);
    assert(crate::text::ascii_lower("status"@) =~= "status"@);
    assert("status"@ != "method"@);
    assert("status"@ != "scheme"@);
    assert("status"@ != "domain"@);
}

/// For every status code `status` of a record, the filter `status == N`
/// holds when `N` is the decimal text of `status`, and fails when it is the
/// text of `status + 1`.
pub proof fn law_status_equality(status: i32, n: int, e: FilterExpr, r: Entry)
    requires
        r.response.status == status,
        n == status || n == status + 1,
        parses_to(e, "status == "@ + int_text(n)),
    ensures
        parse_error("status == "@ + int_text(n)) is None,
        eval(e, r) == (n == status),
{
    lemma_parse_status_eq(n, e);
    assert((status as int) * ONE == n * ONE <==> status as int == n) by (nonlinear_arith);
}

/// The literal `400` is the number 400.
proof fn lemma_literal_400()
    ensures
        trim("400"@) == "400"@,
        literal_lit("400"@) == Lit::Num(400 * ONE),
{
    reveal_strlit("400");
    reveal_strlit("true");
    reveal_strlit("false");
    let t = "400"@;
    lemma_int_text_units(400);
    assert(int_text(400) =~= t) by {
        reveal_with_fuel(crate::decimal::nat_text, 3);
    }
    lemma_trim_keeps(t);
    assert(!is_quoted(t));
    assert(t != "true"@ && t != "false"@);
}

/// `status >= 400` parses, and holds of a record exactly when its status
/// is at least 400.
#[verifier::rlimit(100)]
pub proof fn law_status_at_least_400(e: FilterExpr, r: Entry)
    requires
        parses_to(e, "status >= 400"@),
    ensures
        parse_error("status >= 400"@) is None,
        eval(e, r) == (r.response.status >= 400),
{
    reveal_strlit("status >= 400");
    reveal_strlit("status");
    reveal_strlit("400");
    reveal_strlit("||");
    reveal_strlit("&&");
    reveal_strlit("not ");
    reveal_strlit("==");
    reveal_strlit("!=");
    reveal_strlit(">=");
    let s = "status >= 400"@;
    assert(s.len() == 13);
    assert forall|j: int| 0 <= j < s.len() implies #[trigger] s[j] != '|' && s[j] != '&' && s[j]
        != '.' by {}
    lemma_trim_keeps(s);
    lemma_absent(s, "||"@);
    lemma_absent(s, "&&"@);
    lemma_absent(s, seq!['.']);
    assert(!wrapped(s));
    assert(!not_word(s)) by {
        assert(s.subrange(0, 4)[0] == 's');
        assert(crate::text::ascii_lower(s.subrange(0, 4))[0] == 's');
    }
    assert(method_call(s) is None);
    lemma_find_from(s, "=="@, 0);
    lemma_find_from(s, "!="@, 0);
    lemma_find_from(s, ">="@, 0);
    assert forall|k: int| 0 <= k < s.len() implies !occurs_at(s, "=="@, k) && !occurs_at(s, "!="@, k)
        by {
        if occurs_at(s, "=="@, k) || occurs_at(s, "!="@, k) {
            assert(s.subrange(k, k + 2)[0] == s[k]);
            assert(s.subrange(k, k + 2)[1] == s[k + 1]);
        }
    }
    assert(occurs_at(s, ">="@, 7)) by {
        assert(s.subrange(7, 9) =~= ">="@);
    }
    assert forall|k: int| 0 <= k < 7 implies !occurs_at(s, ">="@, k) by {
        if occurs_at(s, ">="@, k) {
            assert(s.subrange(k, k + 2)[0] == s[k]);
        }
    }
    assert(split_comparison(s) == Some((CmpOp::Ge, 7int)));
    let fs = s.subrange(0, 7);
    assert(fs.drop_last() =~= "status"@);
    assert(trim_start(fs) == fs);
    lemma_trim_keeps("status"@);
    assert(trim(fs) == "status"@);
    lemma_status_name();
    let vs = s.subrange(9, 13);
    let t = s.subrange(10, 13);
    assert(vs.drop_first() =~= t);
    assert(t =~= "400"@);
    lemma_literal_400();
    assert(trim(vs) == t);
    assert(comparison_error(s) is None);
    assert(comparison_node(e, CmpOp::Ge, "status"@, t));
    assert((r.response.status as int) * ONE >= 400 * ONE <==> r.response.status >= 400)
        by (nonlinear_arith);
}

/// `status == N`, for the decimal text `N` of an integer `n`, parses to the
/// comparison of the status with the number `n`.
proof fn lemma_parse_status_eq(n: int, e: FilterExpr)
    requires
        -INT_LIMIT < n < INT_LIMIT,
    ensures
        parse_error("status == "@ + int_text(n)) is None,
        parses_to(e, "status == "@ + int_text(n)) ==> (e matches FilterExpr::Eq(f, v) && f
            == Field::Status && v@ == Lit::Num(n * ONE)),
{
    let t = int_text(n);
    lemma_int_text_units(n);
    assert forall|j: int| 0 <= j < t.len() implies number_char(#[trigger] t[j]) by {
        assert(is_digit(t[j]) || t[j] == '-');
    }
    lemma_parse_status_literal(t, e);
}

/// A character that can stand in a numeric literal.
pub open spec fn number_char(c: char) -> bool {
    is_digit(c) || c == '.' || c == '+' || c == '-' || c == 'e' || c == 'E'
}

/// `status == t`, for a text `t` of number characters, parses to the
/// comparison of the status with the literal `t`.
proof fn lemma_parse_status_literal(t: Seq<char>, e: FilterExpr)
    requires
        t.len() > 0,
        forall|j: int| 0 <= j < t.len() ==> number_char(#[trigger] t[j]),
    ensures
        parse_error("status == "@ + t) is None,
        parses_to(e, "status == "@ + t) ==> (e matches FilterExpr::Eq(f, v) && f == Field::Status
            && v@ == literal_lit(t)),
        literal_lit(t) == (match literal_units(t) {
            Some(u) => Lit::Num(u),
            None => Lit::Str(t),
        }),
{
    reveal_strlit("status == ");
    reveal_strlit("status");
    reveal_strlit("||");
    reveal_strlit("&&");
    reveal_strlit("not ");
    reveal_strlit("==");
    reveal_strlit(")");
    reveal_strlit("true");
    reveal_strlit("false");
    let head = "status == "@;
    let s = head + t;
    assert(s.len() == t.len() + 10);
    assert(number_char(t[0]));
    assert(number_char(t.last()));
    assert forall|j: int| 0 <= j < s.len() implies #[trigger] s[j] != '|' && s[j] != '&' && s[j]
        != '(' && s[j] != ')' && s[j] != '\'' && s[j] != '"' && s[j] != '=' || 7 <= j <= 8 by {
        if j >= 10 {
            assert(s[j] == t[j - 10]);
            assert(number_char(t[j - 10]));
        }
    }
    assert forall|j: int| 0 <= j < s.len() implies #[trigger] s[j] != '|' && s[j] != '&' by {
        if j >= 10 {
            assert(s[j] == t[j - 10]);
            assert(number_char(t[j - 10]));
        }
    }
    assert(s.last() == t.last());
    lemma_trim_keeps(s);
    assert(!wrapped(s));
    lemma_absent(s, "||"@);
    lemma_absent(s, "&&"@);
    assert(!not_word(s)) by {
        assert(crate::text::ascii_lower(s.subrange(0, 4))[0] == 's');
    }
    // a dot inside the literal opens no method call: the text does not end in `)`
    assert(method_call(s) is None) by {
        if find_first(s, seq!['.']) is Some {
            let i = find_first(s, seq!['.'])->Some_0;
            lemma_find_from(s, seq!['.'], 0);
            let rest = s.subrange(i + 1, s.len() as int);
            if rest.len() > 0 {
                assert(rest.last() == s.last());
                assert(crate::text::has_suffix(rest, ")"@) ==> rest.subrange(
                    rest.len() - 1,
                    rest.len() as int,
                )[0] == rest.last());
            }
            assert(!crate::text::has_suffix(rest, ")"@));
        }
    }
    // the first `==` is at 7
    lemma_find_from(s, "=="@, 0);
    assert(occurs_at(s, "=="@, 7)) by {
        assert(s.subrange(7, 9) =~= "=="@);
    }
    assert(find_first(s, "=="@) == Some(7int)) by {
        let k = find_first(s, "=="@)->Some_0;
        assert(s.subrange(k, k + 2)[0] == s[k]);
    }
    assert(split_comparison(s) == Some((CmpOp::Eq, 7int)));
    assert(op_text(CmpOp::Eq).len() == 2);
    // the field text
    let fs = s.subrange(0, 7);
    assert(fs.drop_last() =~= "status"@);
    assert(trim_start(fs) == fs);
    assert(trim_end(fs) == trim_end("status"@));
    lemma_trim_keeps("status"@);
    lemma_status_name();
    assert(trim(fs) == "status"@);
    // the value text
    let vs = s.subrange(9, s.len() as int);
    assert(vs.drop_first() =~= t);
    assert(trim_start(vs) == trim_start(t));
    lemma_trim_keeps(t);
    assert(trim(vs) == t);
    assert(!is_quoted(t));
    assert(t != "true"@ && t != "false"@) by {
        assert(t[0] != 't' && t[0] != 'f');
    }
    assert(comparison_error(s) is None);
    assert(parses_to(e, s) ==> comparison_as(e, s));
    assert(parses_to(e, s) ==> comparison_node(e, CmpOp::Eq, "status"@, t));
}

/// For every literal `t` made of number characters (digits, `.`, signs,
/// exponent markers), `status == t` parses, and holds of a record exactly
/// when `t` reads as a number within `f64::EPSILON` of its status.
pub proof fn law_status_equals_literal(t: Seq<char>, e: FilterExpr, r: Entry)
    requires
        t.len() > 0,
        forall|j: int| 0 <= j < t.len() ==> number_char(#[trigger] t[j]),
        parses_to(e, "status == "@ + t),
    ensures
        parse_error("status == "@ + t) is None,
        eval(e, r) == (literal_units(t) matches Some(u) && near(u, r.response.status as int * ONE)),
{
    lemma_parse_status_literal(t, e);
}

/// A character of a field text in a comparison: anything but `|`, `&` and `=`.
pub open spec fn field_text_char(c: char) -> bool {
    c != '|' && c != '&' && c != '='
}

/// A field text that a comparison can start with: no `|`, `&` or `=`, no
/// whitespace at either end, and not starting with `(`, `!` or `n`/`N`.
pub open spec fn plain_field_text(f: Seq<char>) -> bool {
    &&& f.len() > 0
    &&& forall|i: int| 0 <= i < f.len() ==> field_text_char(#[trigger] f[i])
    &&& !is_ws(f[0])
    &&& !is_ws(f.last())
    &&& f[0] != '('
    &&& f[0] != '!'
    &&& crate::text::ascii_lower(f)[0] != 'n'
}

/// A literal that a comparison can end with: no `|`, `&` or `==`, and not
/// ending in whitespace or `)`.
pub open spec fn plain_literal_text(a: Seq<char>) -> bool {
    &&& a.len() > 0
    &&& !is_ws(a.last())
    &&& a.last() != ')'
    &&& forall|i: int| 0 <= i < a.len() ==> #[trigger] a[i] != '|' && a[i] != '&'
    &&& !contains(a, "=="@)
}

/// The comparison text `f op a` that the field laws speak of.
pub open spec fn op_text_of(f: Seq<char>, cop: CmpOp, a: Seq<char>) -> Seq<char> {
    f + seq![' '] + op_text(cop) + seq![' '] + a
}

/// `f op a` is none of the shapes that parsing tries before comparisons.
proof fn lemma_field_op_shape(f: Seq<char>, a: Seq<char>, cop: CmpOp)
    requires
        cop is Eq || cop is Ne,
        plain_field_text(f),
        plain_literal_text(a),
    ensures
        trim(op_text_of(f, cop, a)) == op_text_of(f, cop, a),
        !wrapped(op_text_of(f, cop, a)),
        top_level(op_text_of(f, cop, a), "||"@) is None,
        top_level(op_text_of(f, cop, a), "&&"@) is None,
        op_text_of(f, cop, a)[0] != '!',
        !not_word(op_text_of(f, cop, a)),
        method_call(op_text_of(f, cop, a)) is None,
{
    reveal_strlit("||");
    reveal_strlit("&&");
    reveal_strlit("==");
    reveal_strlit("!=");
    reveal_strlit(")");
    let n = f.len() as int;
    let s = op_text_of(f, cop, a);
    assert(s.len() == n + 4 + a.len());
    assert forall|j: int| 0 <= j < s.len() implies #[trigger] s[j] != '|' && s[j] != '&' by {
        if j < n {
            assert(s[j] == f[j]);
            assert(field_text_char(f[j]));
        } else if j >= n + 4 {
            assert(s[j] == a[j - n - 4]);
        }
    }
    assert(s[0] == f[0]);
    assert(s.last() == a.last());
    lemma_trim_keeps(s);
    lemma_absent(s, "||"@);
    lemma_absent(s, "&&"@);
    assert(!not_word(s)) by {
        reveal_strlit("not ");
        assert(crate::text::ascii_lower(f)[0] == crate::text::ascii_lower_char(f[0]));
        if s.len() >= 4 {
            assert(s.subrange(0, 4)[0] == s[0]);
            assert(crate::text::ascii_lower(s.subrange(0, 4))[0] == crate::text::ascii_lower_char(
                s[0],
            ));
        }
    }
    // whatever follows the first dot ends as `a` does, not in `)`
    assert(method_call(s) is None) by {
        if find_first(s, seq!['.']) is Some {
            let i = find_first(s, seq!['.'])->Some_0;
            lemma_find_from(s, seq!['.'], 0);
            let rest = s.subrange(i + 1, s.len() as int);
            if rest.len() > 0 {
                assert(rest.last() == s.last());
                assert(crate::text::has_suffix(rest, ")"@) ==> rest.subrange(
                    rest.len() - 1,
                    rest.len() as int,
                )[0] == rest.last());
            }
            assert(!crate::text::has_suffix(rest, ")"@));
        }
    }
}

/// In `f op a` the operator found first is `op`, right after `f` and a space.
#[verifier::rlimit(100)]
proof fn lemma_field_op_split(f: Seq<char>, a: Seq<char>, cop: CmpOp)
    requires
        cop is Eq || cop is Ne,
        forall|i: int| 0 <= i < f.len() ==> field_text_char(#[trigger] f[i]),
        !contains(a, "=="@),
    ensures
        split_comparison(op_text_of(f, cop, a)) == Some((cop, f.len() + 1int)),
{
    reveal_strlit("==");
    reveal_strlit("!=");
    let op = op_text(cop);
    let n = f.len() as int;
    let s = op_text_of(f, cop, a);
    assert(s.len() == n + 4 + a.len());
    assert(occurs_at(s, op, n + 1)) by {
        assert(s.subrange(n + 1, n + 3) =~= op);
    }
    lemma_field_op_nothing_before(f, a, cop);
    lemma_field_op_nothing_after(f, a, cop);
    lemma_find_from(s, "=="@, 0);
    lemma_find_from(s, "!="@, 0);
    if cop is Eq {
        assert(find_first(s, "=="@) == Some(n + 1));
    } else {
        assert(!occurs_at(s, "=="@, n + 1)) by {
            assert(s.subrange(n + 1, n + 3)[0] == s[n + 1]);
        }
        assert(find_first(s, "=="@) is None);
        assert(find_first(s, "!="@) == Some(n + 1));
    }
}

/// In `f op a` no `==` or `!=` starts before the operator.
#[verifier::rlimit(100)]
proof fn lemma_field_op_nothing_before(f: Seq<char>, a: Seq<char>, cop: CmpOp)
    requires
        cop is Eq || cop is Ne,
        forall|i: int| 0 <= i < f.len() ==> field_text_char(#[trigger] f[i]),
    ensures
        forall|k: int|
            0 <= k < f.len() + 1 ==> !occurs_at(op_text_of(f, cop, a), "=="@, k) && !occurs_at(
                op_text_of(f, cop, a),
                "!="@,
                k,
            ),
{
    reveal_strlit("==");
    reveal_strlit("!=");
    let n = f.len() as int;
    let s = op_text_of(f, cop, a);
    assert(s.len() == n + 4 + a.len());
    assert forall|k: int| 0 <= k < n + 1 implies !occurs_at(s, "=="@, k) && !occurs_at(s, "!="@, k)
        by {
        if occurs_at(s, "=="@, k) || occurs_at(s, "!="@, k) {
            assert(s.subrange(k, k + 2)[0] == s[k]);
            assert(s.subrange(k, k + 2)[1] == s[k + 1]);
            assert(s[n] == ' ');
            if k + 1 < n {
                assert(s[k + 1] == f[k + 1]);
                assert(field_text_char(f[k + 1]));
            }
        }
    }
}

/// In `f op a` no `==` starts after the operator.
#[verifier::rlimit(100)]
proof fn lemma_field_op_nothing_after(f: Seq<char>, a: Seq<char>, cop: CmpOp)
    requires
        cop is Eq || cop is Ne,
        !contains(a, "=="@),
    ensures
        forall|k: int|
            f.len() + 1 < k < op_text_of(f, cop, a).len() ==> !occurs_at(
                op_text_of(f, cop, a),
                "=="@,
                k,
            ),
{
    reveal_strlit("==");
    reveal_strlit("!=");
    let n = f.len() as int;
    let s = op_text_of(f, cop, a);
    assert(op_text(cop).len() == 2);
    assert(s.len() == n + 4 + a.len());
    lemma_find_from(a, "=="@, 0);
    assert forall|k: int| n + 1 < k < s.len() implies !occurs_at(s, "=="@, k) by {
        if occurs_at(s, "=="@, k) {
            assert(s.subrange(k, k + 2)[0] == s[k]);
            assert(s.subrange(k, k + 2)[1] == s[k + 1]);
            if k >= n + 4 {
                assert(a.subrange(k - n - 4, k - n - 2) =~= s.subrange(k, k + 2));
                assert(occurs_at(a, "=="@, k - n - 4));
            }
        }
    }
}

/// The text `f op a` (with `op` one of `==`, `!=`) parses to the comparison
/// of the field that `f` names with the literal `a`.
proof fn lemma_parse_field_op(f: Seq<char>, a: Seq<char>, cop: CmpOp, e: FilterExpr)
    requires
        cop is Eq || cop is Ne,
        plain_field_text(f),
        field_known(f),
        plain_literal_text(a),
    ensures
        parse_error(op_text_of(f, cop, a)) is None,
        parses_to(e, op_text_of(f, cop, a)) ==> comparison_node(e, cop, f, trim(a)),
{
    let n = f.len() as int;
    let s = op_text_of(f, cop, a);
    lemma_field_op_shape(f, a, cop);
    lemma_field_op_split(f, a, cop);
    assert(op_text(cop).len() == 2) by {
        reveal_strlit("==");
        reveal_strlit("!=");
    }
    let fs = s.subrange(0, n + 1);
    assert(fs.drop_last() =~= f);
    assert(trim_start(fs) == fs) by {
        assert(fs[0] == f[0]);
    }
    assert(trim_end(fs) == trim_end(f));
    lemma_trim_keeps(f);
    assert(trim(fs) == f);
    let vs = s.subrange(n + 3, s.len() as int);
    assert(vs.drop_first() =~= a);
    assert(trim_start(vs) == trim_start(a));
    assert(trim(vs) == trim(a));
    assert(comparison_error(s) is None);
}

/// A field that a record lacks, named in a filter, is unequal to every
/// literal: `f != a` holds and `f == a` fails. Here `f` is any field text
/// (plain name or header call) without `|`, `&` or `=`, and `a` a literal
/// without `|`, `&` or `==` that does not end in whitespace or `)`, so that
/// the text parses as one comparison; no field text begins with `n`.
pub proof fn law_absent_field_parsed(f: Seq<char>, a: Seq<char>, ne: FilterExpr, eq: FilterExpr, r: Entry)
    requires
        plain_field_text(f),
        field_known(f),
        forall|g: Field| #[trigger] names_field(g, f) ==> field_value(g, r) is None,
        plain_literal_text(a),
        parses_to(ne, f + " != "@ + a),
        parses_to(eq, f + " == "@ + a),
    ensures
        parse_error(f + " != "@ + a) is None,
        parse_error(f + " == "@ + a) is None,
        eval(ne, r),
        !eval(eq, r),
{
    reveal_strlit(" != ");
    reveal_strlit(" == ");
    reveal_strlit("==");
    reveal_strlit("!=");
    assert(f + " != "@ + a =~= op_text_of(f, CmpOp::Ne, a));
    assert(f + " == "@ + a =~= op_text_of(f, CmpOp::Eq, a));
    lemma_parse_field_op(f, a, CmpOp::Ne, ne);
    lemma_parse_field_op(f, a, CmpOp::Eq, eq);
    assert(names_field(ne->Ne_0, f));
    assert(names_field(eq->Eq_0, f));
}

} // verus!
