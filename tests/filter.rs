use harq::decimal::Decimal;
use harq::expr::FilterExpr;
use harq::field::{Field, FilterError};
use harq::har::{
    Cache, Content, Entry, Header, PostData, Request, Response, Timings,
};
use harq::value::Value;

fn record(method: &str, url: &str, status: i32) -> Entry {
    Entry {
        pageref: None,
        started_date_time: "2024-01-01T00:00:00Z".to_string(),
        time: Decimal::parse("120.5").unwrap(),
        request: Request {
            method: method.to_string(),
            url: url.to_string(),
            http_version: "HTTP/1.1".to_string(),
            cookies: vec![],
            headers: vec![],
            query_string: vec![],
            post_data: None,
            headers_size: 100,
            body_size: 0,
            comment: None,
        },
        response: Response {
            status,
            status_text: "OK".to_string(),
            http_version: "HTTP/1.1".to_string(),
            cookies: vec![],
            headers: vec![],
            content: Content {
                size: 2048,
                compression: None,
                mime_type: None,
                text: None,
                encoding: None,
                comment: None,
            },
            redirect_url: None,
            headers_size: 200,
            body_size: 2048,
            comment: None,
        },
        cache: Cache { before_request: None, after_request: None, comment: None },
        timings: Timings {
            blocked: None,
            dns: Some(Decimal::from_int(5)),
            connect: None,
            send: None,
            wait: None,
            receive: None,
            ssl: None,
            comment: None,
        },
        server_ip_address: None,
        connection: None,
        comment: None,
    }
}

fn header(name: &str, value: &str) -> Header {
    Header { name: name.to_string(), value: value.to_string(), comment: None }
}

fn holds(expr: &str, e: &Entry) -> bool {
    FilterExpr::parse(expr).unwrap().matches(e)
}

#[test]
fn test_parse_simple_eq() {
    let expr = FilterExpr::parse("status == 200").unwrap();
    assert!(matches!(expr, FilterExpr::Eq(Field::Status, Value::Number(n)) if n == Decimal::from_int(200)));
}

#[test]
fn test_parse_string_eq() {
    let expr = FilterExpr::parse(r#"method == "POST""#).unwrap();
    assert!(matches!(expr, FilterExpr::Eq(Field::Method, Value::String(_))));
}

#[test]
fn test_parse_and() {
    let expr = FilterExpr::parse(r#"status == 200 && method == "GET""#).unwrap();
    assert!(matches!(expr, FilterExpr::And(_, _)));
}

#[test]
fn status_equality_matches_its_own_code_only() {
    let e = record("GET", "https://a.com/", 200);
    assert!(holds("status == 200", &e));
    assert!(!holds("status == 201", &e));
    assert!(holds("status == 2e2", &e));
    assert!(holds("status == 2.00E+2", &e));
    let e = record("GET", "https://a.com/", 400);
    assert!(holds("status == 4e2", &e));
    assert!(holds("status == 400.0000000000000001", &e));
    assert!(!holds("status == 400.000000000000001", &e));
    let e = record("GET", "https://a.com/", 404);
    assert!(holds("status == 404", &e));
    assert!(!holds("status == 405", &e));
}

#[test]
fn status_boundary_at_400() {
    assert!(!holds("status >= 400", &record("GET", "https://a.com/", 399)));
    assert!(holds("status >= 400", &record("GET", "https://a.com/", 400)));
    assert!(holds("status >= 400", &record("GET", "https://a.com/", 500)));
}

#[test]
fn absent_field_is_unequal_to_anything() {
    let e = record("GET", "https://a.com/", 200);
    assert!(holds(r#"serverIpAddress != "10.0.0.1""#, &e));
    assert!(!holds(r#"serverIpAddress == "10.0.0.1""#, &e));
    assert!(!holds("serverIpAddress > 1", &e));
    assert!(!holds("query == x", &e));
    assert!(holds("query != x", &e));
    assert!(holds(r#"request.header("X-Trace") != v1.2"#, &e));
    assert!(!holds(r#"request.header("X-Trace") == v1.2"#, &e));
    assert!(holds("timings.ssl != 4e2", &e));
}

#[test]
fn de_morgan_on_sample_records() {
    let a = FilterExpr::parse(r#"!(status == 200 && method == "GET")"#).unwrap();
    let b = FilterExpr::parse(r#"!status == 200 || !method == "GET""#).unwrap();
    for (m, s) in [("GET", 200), ("GET", 404), ("POST", 200), ("POST", 404)] {
        let e = record(m, "https://a.com/", s);
        assert_eq!(a.matches(&e), b.matches(&e));
    }
    assert!(!a.matches(&record("GET", "https://a.com/", 200)));
    assert!(a.matches(&record("POST", "https://a.com/", 200)));
}

#[test]
fn case_insensitive_regex() {
    let e = record("GET", "https://a.com/", 200);
    assert!(holds("method.matches(/get/i)", &e));
    assert!(!holds("method.matches(/get/)", &e));
    assert!(holds("method.matches(/^G.T$/)", &e));
    assert!(holds("url.matches(a\\.com)", &e));
}

#[test]
fn graphql_detection() {
    let mut e = record("POST", "https://api.example.com/graphql", 200);
    e.request.post_data = Some(PostData {
        mime_type: "application/json".to_string(),
        params: None,
        text: Some(r#"{"operationName":"GetUser","query":"query GetUser { user { id } }"}"#.to_string()),
        comment: None,
    });
    assert!(holds("isGraphQL", &e));
    assert!(holds(r#"operationName == "GetUser""#, &e));
    assert!(holds(r#"operationType == "query""#, &e));
    assert_eq!(Field::GqlOperationName.get_string(&e), Some("GetUser".to_string()));
    assert_eq!(Field::GqlOperationType.get_string(&e), Some("query".to_string()));
    e.request.method = "po\u{17f}t".to_string();
    assert!(holds("isGraphQL", &e));
    e.request.method = "GET".to_string();
    assert!(!holds("isGraphQL", &e));
    assert_eq!(Field::IsGraphQL.get_string(&e), Some("false".to_string()));
}

#[test]
fn graphql_operation_types() {
    let mut e = record("post", "https://a.com/gql", 200);
    let body = |q: &str| PostData {
        mime_type: "application/graphql+json".to_string(),
        params: None,
        text: Some(format!("{{\"query\":\"{}\",\"variables\":{{\"id\":5}}}}", q)),
        comment: None,
    };
    e.request.post_data = Some(body("  mutation Save($id: ID) { save }"));
    assert!(holds("isGraphQL", &e));
    assert_eq!(Field::GqlOperationType.get_string(&e), Some("mutation".to_string()));
    e.request.post_data = Some(body("{ viewer { id } }"));
    assert_eq!(Field::GqlOperationType.get_string(&e), Some("query".to_string()));
    e.request.post_data = Some(body("subscription{ ticks }"));
    assert_eq!(Field::GqlOperationType.get_string(&e), Some("subscription".to_string()));
    e.request.post_data = Some(body("queryX { a }"));
    assert_eq!(Field::GqlOperationType.get_string(&e), None);
    assert_eq!(Field::GqlOperationName.get_string(&e), None);
}

#[test]
fn graphql_non_string_member_is_json_text() {
    let mut e = record("POST", "https://a.com/gql", 200);
    e.request.post_data = Some(PostData {
        mime_type: "application/json".to_string(),
        params: None,
        text: Some(r#"{"operationName":null,"query":[1, 2]}"#.to_string()),
        comment: None,
    });
    assert!(holds("isGraphQL", &e));
    assert_eq!(Field::GqlOperationName.get_string(&e), None);
    assert_eq!(Field::GqlQuery.get_string(&e), Some("[1,2]".to_string()));
    assert_eq!(Field::GqlOperationType.get_string(&e), None);
    e.request.post_data.as_mut().unwrap().mime_type = "text/plain".to_string();
    assert!(!holds("isGraphQL", &e));
    e.request.post_data.as_mut().unwrap().mime_type = "application/json".to_string();
    e.request.post_data.as_mut().unwrap().text = Some("[1]".to_string());
    assert!(!holds("isGraphQL", &e));
}

#[test]
fn header_lookup_filter() {
    let f = r#"request.header("Authorization") != """#;
    let mut e = record("GET", "https://a.com/", 200);
    e.request.headers = vec![header("authorization", "Bearer x")];
    assert!(holds(f, &e));
    e.request.headers = vec![header("Authorization", "")];
    assert!(!holds(f, &e));
    // a missing header counts as not equal
    e.request.headers = vec![];
    assert!(holds(f, &e));
}

#[test]
fn url_fields() {
    let e = record("GET", "https://api.example.com:8080/v1/users?id=1", 200);
    assert_eq!(Field::Host.get_string(&e), Some("api.example.com".to_string()));
    assert_eq!(Field::Path.get_string(&e), Some("/v1/users".to_string()));
    assert_eq!(Field::Scheme.get_string(&e), Some("https".to_string()));
    assert_eq!(Field::Query.get_string(&e), Some("id=1".to_string()));
    assert!(holds(r#"domain == "api.example.com""#, &e));
    let e = record("GET", "ftp-like-host", 200);
    assert_eq!(Field::Path.get_string(&e), Some("/".to_string()));
    assert_eq!(Field::Scheme.get_string(&e), Some("".to_string()));
    assert_eq!(Field::Query.get_string(&e), None);
}

#[test]
fn string_predicates() {
    let e = record("GET", "https://a.com/api/users", 200);
    assert!(holds(r#"url.contains("/api/")"#, &e));
    assert!(holds("url.startsWith('https')", &e));
    assert!(holds(r#"path.endsWith("users")"#, &e));
    assert!(!holds(r#"url.contains("/v2/")"#, &e));
    assert!(holds(r#"status.startsWith("2")"#, &e));
    assert!(holds(r#"time.contains("120.5")"#, &e));
}

#[test]
fn numbers_and_strings_coerce() {
    let e = record("GET", "https://a.com/", 200);
    assert!(holds(r#"status == "200""#, &e));
    assert!(holds("status < 300 && status > 199.5", &e));
    assert!(holds("time > 120.25", &e));
    assert!(holds("time <= 120.5", &e));
    assert!(holds("dns == 5.0", &e));
    assert!(holds(r#"method < "HEAD""#, &e));
    assert!(!holds(r#"method > "HEAD""#, &e));
    assert!(holds("contentSize >= 2048", &e));
}

#[test]
fn logic_and_grouping() {
    let e = record("POST", "https://a.com/", 500);
    assert!(holds(r#"(method == "GET" || method == "POST") && status >= 500"#, &e));
    assert!(holds(r#"NOT method == "GET""#, &e));
    assert!(holds(r#"status == 200 || status == 500"#, &e));
    assert!(!holds(r#"status == 200 || status == 404"#, &e));
    assert!(holds(r#"url.contains("a.com") && method == 'POST'"#, &e));
}

#[test]
fn bool_check_and_truthiness() {
    let e = record("GET", "https://a.com/", 200);
    assert!(holds("status", &e));
    assert!(holds("method", &e));
    assert!(!holds("serverip", &e));
    assert!(!holds("isGraphQL", &e));
}

#[test]
fn parse_errors() {
    assert!(matches!(FilterExpr::parse("bogus == 1"), Err(FilterError::UnknownField(_))));
    assert!(matches!(FilterExpr::parse("method.matches(/(/)"), Err(FilterError::InvalidRegex(_))));
    assert!(matches!(FilterExpr::parse("nothing here"), Err(FilterError::UnparsableExpression(_))));
    assert!(matches!(FilterExpr::parse(""), Err(FilterError::UnparsableExpression(_))));
    assert!(matches!(FilterExpr::parse("status == 1 && nope"), Err(FilterError::UnparsableExpression(_))));
}

#[test]
fn field_names() {
    assert!(matches!(Field::parse("  Status "), Ok(Field::Status)));
    assert!(matches!(Field::parse("DOMAIN"), Ok(Field::Domain)));
    assert!(matches!(Field::parse("protocol"), Ok(Field::Scheme)));
    assert!(matches!(Field::parse("blocked"), Ok(Field::TimingBlocked)));
    assert!(matches!(Field::parse("gql.type"), Ok(Field::GqlOperationType)));
    match Field::parse("response.header('X-Trace')") {
        Ok(Field::ResponseHeader(n)) => assert_eq!(n, "X-Trace"),
        _ => panic!("expected a response header field"),
    }
    assert!(matches!(Field::parse("nope"), Err(FilterError::UnknownField(_))));
}

#[test]
fn quoted_operators_do_not_split() {
    let e = record("GET", "https://a.com/x||y", 200);
    assert!(holds(r#"url.contains("x||y")"#, &e));
    assert_eq!(harq::expr::find_top_level(r#"a == "||" || b"#, "||"), Some(10));
    assert_eq!(harq::expr::find_top_level("(a || b) && c", "||"), None);
    assert!(harq::expr::is_balanced("(a(b)c)"));
    assert!(!harq::expr::is_balanced(")("));
}
