use harq::commands::{entry_position, HeadersCmd, ListCmd, Matcher, SearchCmd};
use harq::decimal::Decimal;
use harq::har::{Cache, Content, Entry, Header, Request, Response, Timings};
use harq::output::{extract_host, extract_path, format_bytes, truncate, ColorWhen, OutputFormat};
use harq::value::Value;

fn record(url: &str) -> Entry {
    Entry {
        pageref: None,
        started_date_time: "2024-01-01T00:00:00Z".to_string(),
        time: Decimal::from_int(10),
        request: Request {
            method: "GET".to_string(),
            url: url.to_string(),
            http_version: "HTTP/2".to_string(),
            cookies: vec![],
            headers: vec![Header { name: "Accept".to_string(), value: "text/html".to_string(), comment: None }],
            query_string: vec![],
            post_data: None,
            headers_size: -1,
            body_size: -1,
            comment: None,
        },
        response: Response {
            status: 200,
            status_text: "OK".to_string(),
            http_version: "HTTP/2".to_string(),
            cookies: vec![],
            headers: vec![
                Header { name: "Content-Type".to_string(), value: "text/html".to_string(), comment: None },
                Header { name: "content-type".to_string(), value: "ignored".to_string(), comment: None },
            ],
            content: Content {
                size: 5,
                compression: None,
                mime_type: None,
                text: Some("aGVsbG8gV29ybGQ=".to_string()),
                encoding: Some("base64".to_string()),
                comment: None,
            },
            redirect_url: None,
            headers_size: -1,
            body_size: 5,
            comment: None,
        },
        cache: Cache { before_request: None, after_request: None, comment: None },
        timings: Timings {
            blocked: None,
            dns: None,
            connect: None,
            send: None,
            wait: None,
            receive: None,
            ssl: None,
            comment: None,
        },
        server_ip_address: None,
        connection: None,
        comment: None,
    }
}

fn search(pattern: &str) -> SearchCmd {
    SearchCmd {
        pattern: pattern.to_string(),
        file: "-".to_string(),
        output: OutputFormat::Table,
        ignore_case: false,
        regex: false,
        headers: false,
        body: false,
        url: false,
        invert: false,
        count: false,
        max_url: 60,
    }
}

#[test]
fn decimal_literals() {
    assert_eq!(Decimal::parse("1.50").unwrap().to_text(), "1.5");
    assert_eq!(Decimal::parse("-0.25").unwrap().to_text(), "-0.25");
    assert_eq!(Decimal::parse("+7").unwrap(), Decimal::from_int(7));
    assert_eq!(Decimal::parse("200.000").unwrap().to_text(), "200");
    assert_eq!(Decimal::parse(".5").unwrap().to_text(), "0.5");
    assert_eq!(Decimal::parse("5.").unwrap().to_text(), "5");
    assert_eq!(Decimal::parse("0.000000000000000001").unwrap().units, 1);
    assert_eq!(Decimal::parse("abc"), None);
    assert_eq!(Decimal::parse("."), None);
    assert_eq!(Decimal::parse("1.2.3"), None);
    assert_eq!(Decimal::parse(""), None);
    assert_eq!(Decimal::parse("10000000000000000000"), None);
    assert_eq!(Decimal::parse("0.0000000000000000001"), None);
    assert_eq!(Decimal::from_int(-3).to_text(), "-3");
}

#[test]
fn decimal_exponents() {
    assert_eq!(Decimal::parse("1e3"), Some(Decimal::from_int(1000)));
    assert_eq!(Decimal::parse("4E2"), Some(Decimal::from_int(400)));
    assert_eq!(Decimal::parse("1E+2"), Some(Decimal::from_int(100)));
    assert_eq!(Decimal::parse("-2.5e1"), Some(Decimal::from_int(-25)));
    assert_eq!(Decimal::parse("1.5e-3").unwrap().to_text(), "0.0015");
    assert_eq!(Decimal::parse(".5e1"), Some(Decimal::from_int(5)));
    assert_eq!(Decimal::parse("5.e0"), Some(Decimal::from_int(5)));
    assert_eq!(Decimal::parse("100000000000000000000e-5").unwrap().to_text(), "1000000000000000");
    assert_eq!(Decimal::parse("0.00000000000000000000123e20").unwrap().to_text(), "0.123");
    assert_eq!(Decimal::parse("0e999999999999999999999999999999999"), Some(Decimal::from_int(0)));
    assert_eq!(Decimal::parse("1e999999999999999999999999999999999"), None);
    assert_eq!(Decimal::parse("1e-999999999999999999999999999999999"), None);
    assert_eq!(Decimal::parse("1e19"), None);
    assert_eq!(Decimal::parse("2.5e-18"), None);
    assert_eq!(Decimal::parse("e5"), None);
    assert_eq!(Decimal::parse("1e"), None);
    assert_eq!(Decimal::parse("1e+"), None);
    assert_eq!(Decimal::parse("1e2e3"), None);
    assert!(matches!(Value::parse("1e3"), Value::Number(d) if d == Decimal::from_int(1000)));
    assert!(Value::String("1e3".to_string()).eq_value(&Value::Number(Decimal::from_int(1000))));
    assert!(Value::String("1e3".to_string()).lt_value(&Value::Number(Decimal::from_int(2000))));
}

#[test]
fn numbers_equal_within_epsilon() {
    let n = |u: i128| Value::Number(Decimal { units: u });
    assert!(n(0).eq_value(&n(1)));
    assert!(n(0).eq_value(&n(222)));
    assert!(n(0).eq_value(&n(-222)));
    assert!(!n(0).eq_value(&n(223)));
    assert!(n(i128::MAX).eq_value(&n(i128::MAX - 5)));
    assert!(!n(i128::MAX).eq_value(&n(i128::MIN)));
    assert!(Value::String("0.0000000000000001".to_string()).eq_value(&n(0)));
    assert!(!Value::String("0.000000000000001".to_string()).eq_value(&n(0)));
    assert!(n(0).ge_value(&n(200)) && n(0).le_value(&n(-200)));
    assert!(n(0).gt_value(&n(-200)));
}

#[test]
fn timing_row_order() {
    let mut entries = vec![record("https://a/1"), record("https://a/2"), record("https://a/3"), record("https://a/4")];
    entries[0].time = Decimal::from_int(5);
    entries[1].time = Decimal::from_int(30);
    entries[2].time = Decimal::from_int(5);
    entries[3].time = Decimal::from_int(12);
    entries[1].timings.dns = Some(Decimal::from_int(2));
    let cmd = |sort: Option<&str>, reverse: bool, limit: Option<usize>| harq::commands::TimingCmd {
        file: "-".to_string(),
        output: OutputFormat::Table,
        sort: sort.map(|s| s.to_string()),
        reverse,
        stats: false,
        limit,
    };
    assert_eq!(cmd(None, false, None).row_order(&entries), vec![1, 2, 3, 4]);
    assert_eq!(cmd(None, false, Some(2)).row_order(&entries), vec![1, 2]);
    assert_eq!(cmd(Some("time"), false, None).row_order(&entries), vec![2, 4, 1, 3]);
    assert_eq!(cmd(Some("total"), true, None).row_order(&entries), vec![1, 3, 4, 2]);
    assert_eq!(cmd(Some("dns"), false, None).row_order(&entries), vec![2, 1, 3, 4]);
    assert_eq!(cmd(Some("other"), false, Some(3)).row_order(&entries), vec![2, 4, 1]);
    assert_eq!(cmd(Some("time"), false, Some(9)).row_order(&vec![]), Vec::<usize>::new());
}

#[test]
fn literal_values() {
    assert!(matches!(Value::parse(" 'x y' "), Value::String(s) if s == "x y"));
    assert!(matches!(Value::parse("\"\""), Value::String(s) if s.is_empty()));
    assert!(matches!(Value::parse("\""), Value::String(s) if s == "\""));
    assert!(matches!(Value::parse("true"), Value::Bool(true)));
    assert!(matches!(Value::parse("false"), Value::Bool(false)));
    assert!(matches!(Value::parse("12.5"), Value::Number(d) if d.to_text() == "12.5"));
    assert!(matches!(Value::parse("GET"), Value::String(s) if s == "GET"));
    assert_eq!(Value::Bool(true).to_string(), "true");
    assert_eq!(Value::Number(Decimal::from_int(42)).to_string(), "42");
    assert!(Value::String("10".to_string()).eq_value(&Value::Number(Decimal::from_int(10))));
    assert!(!Value::String("ten".to_string()).eq_value(&Value::Number(Decimal::from_int(10))));
    assert!(!Value::Bool(true).gt_value(&Value::Bool(false)));
    assert!(!Value::Bool(true).ge_value(&Value::Number(Decimal::from_int(1))));
    assert!(Value::String("b".to_string()).gt_value(&Value::String("abc".to_string())));
    assert!(!Value::String("".to_string()).is_truthy());
    assert!(!Value::Number(Decimal::from_int(0)).is_truthy());
}

#[test]
fn bytes_for_people() {
    assert_eq!(format_bytes(-1), "-");
    assert_eq!(format_bytes(0), "0B");
    assert_eq!(format_bytes(1023), "1023B");
    assert_eq!(format_bytes(1024), "1.0KB");
    assert_eq!(format_bytes(1536), "1.5KB");
    assert_eq!(format_bytes(1280), "1.2KB");
    assert_eq!(format_bytes(1048575), "1024.0KB");
    assert_eq!(format_bytes(1048576), "1.0MB");
    assert_eq!(format_bytes(5 * 1048576 + 524288), "5.5MB");
    assert_eq!(format_bytes(i64::MAX), "8796093022208.0MB");
}

#[test]
fn truncation() {
    assert_eq!(truncate("hello world", 8), "hello...");
    assert_eq!(truncate("hello", 10), "hello");
    assert_eq!(truncate("hello", 5), "hello");
    assert_eq!(truncate("hello", 2), "he");
    assert_eq!(truncate("héllo", 3), "hél");
}

#[test]
fn listing_url_parts() {
    assert_eq!(extract_host("https://a.com:8080/x?y=1"), "a.com:8080");
    assert_eq!(extract_host("http://b.org"), "b.org");
    assert_eq!(extract_path("https://a.com:8080/x?y=1"), "/x?y=1");
    assert_eq!(extract_path("https://a.com"), "/");
}

#[test]
fn header_lookups_and_content_type() {
    let e = record("https://a.com/");
    assert_eq!(e.response_header("CONTENT-TYPE"), Some("text/html"));
    assert_eq!(e.request_header("accept"), Some("text/html"));
    assert_eq!(e.request_header("Cookie"), None);
    assert_eq!(e.content_type(), Some("text/html"));
    let mut e2 = record("https://a.com/");
    e2.response.content.mime_type = Some("application/json".to_string());
    assert_eq!(e2.content_type(), Some("application/json"));
}

#[test]
fn body_decoding() {
    let e = record("https://a.com/");
    assert_eq!(e.response.content.text_content(), Some("hello World".to_string()));
    assert_eq!(e.response.content.decoded_text(), Some(b"hello World".to_vec()));
    let mut c = e.response.content.clone();
    c.text = Some("not base64!".to_string());
    assert_eq!(c.text_content(), None);
    c.text = Some("//79".to_string());
    assert_eq!(c.text_content(), None);
    c.encoding = None;
    c.text = Some("plain".to_string());
    assert_eq!(c.text_content(), Some("plain".to_string()));
    c.text = None;
    assert_eq!(c.decoded_text(), None);
}

#[test]
fn list_limits() {
    let cmd = |head, tail, limit| ListCmd {
        file: "-".to_string(),
        output: OutputFormat::Table,
        limit,
        head,
        tail,
        max_url: 60,
        long: false,
    };
    let v = vec![1, 2, 3, 4, 5];
    assert_eq!(cmd(Some(2), None, None).apply_limits(v.clone()), vec![1, 2]);
    assert_eq!(cmd(None, Some(2), None).apply_limits(v.clone()), vec![4, 5]);
    assert_eq!(cmd(None, Some(9), None).apply_limits(v.clone()), v);
    assert_eq!(cmd(None, None, Some(3)).apply_limits(v.clone()), vec![1, 2, 3]);
    assert_eq!(cmd(Some(1), Some(1), Some(4)).apply_limits(v.clone()), vec![1]);
    assert_eq!(cmd(None, None, None).apply_limits(v.clone()), v);
}

#[test]
fn header_name_filter() {
    let mut cmd = HeadersCmd {
        index: "1".to_string(),
        file: "-".to_string(),
        output: OutputFormat::Table,
        request: false,
        response: false,
        filter: Some("content".to_string()),
    };
    assert!(cmd.matches_filter("Content-Type"));
    assert!(!cmd.matches_filter("Accept"));
    assert!(cmd.show_request() && cmd.show_response());
    cmd.request = true;
    assert!(cmd.show_request() && !cmd.show_response());
    cmd.filter = Some("ÉTAG".to_string());
    assert!(cmd.matches_filter("x-étag"));
    cmd.filter = None;
    assert!(cmd.matches_filter("anything"));
}

#[test]
fn search_matching() {
    let e = record("https://A.com/Users");
    let s = search("users");
    let m = s.create_matcher().unwrap();
    assert!(!s.entry_matches(&e, &m));
    let mut s = search("USERS");
    s.ignore_case = true;
    let m = s.create_matcher().unwrap();
    assert!(matches!(&m, Matcher::Text { pattern, ignore_case: true } if pattern == "users"));
    assert!(s.entry_matches(&e, &m));
    let mut s = search("^text/");
    s.regex = true;
    s.headers = true;
    let m = s.create_matcher().unwrap();
    assert!(s.entry_matches(&e, &m));
    let mut s = search("World");
    s.body = true;
    let m = s.create_matcher().unwrap();
    assert!(s.entry_matches(&e, &m));
    let entries = vec![record("https://x.com/a"), record("https://y.com/b"), record("https://x.com/c")];
    let mut s = search("x.com");
    let m = s.create_matcher().unwrap();
    assert_eq!(s.kept_indices(&entries, &m), vec![1, 3]);
    s.invert = true;
    assert_eq!(s.kept_indices(&entries, &m), vec![2]);
    let mut bad = search("(");
    bad.regex = true;
    assert!(bad.create_matcher().is_err());
}

#[test]
fn method_and_status_tallies() {
    let mut entries = vec![record("https://x.com/a"), record("https://y.com/b"), record("https://x.com/c")];
    entries[1].request.method = "POST".to_string();
    entries[2].response.status = 404;
    assert_eq!(
        harq::commands::InfoCmd::method_counts(&entries),
        vec![("GET".to_string(), 2), ("POST".to_string(), 1)]
    );
    assert_eq!(harq::commands::InfoCmd::status_counts(&entries), vec![(200, 2), (404, 1)]);
    assert_eq!(harq::commands::InfoCmd::method_counts(&vec![]), vec![]);
    let tallies = vec![("GET".to_string(), 2), ("POST".to_string(), 5), ("PUT".to_string(), 2)];
    assert_eq!(harq::commands::InfoCmd::method_order(&tallies), vec![2, 1, 3]);
    assert_eq!(harq::commands::InfoCmd::status_order(&vec![(404, 1), (200, 7), (301, 2)]), vec![2, 3, 1]);
}

#[test]
fn filter_over_entries() {
    let entries = vec![record("https://x.com/a"), record("https://y.com/b"), record("https://x.com/c")];
    let f = harq::expr::FilterExpr::parse(r#"host == "x.com""#).unwrap();
    assert_eq!(harq::commands::FilterCmd::matching_indices(&f, &entries), vec![1, 3]);
}

#[test]
fn positions_and_colour() {
    assert_eq!(entry_position(0, 3), None);
    assert_eq!(entry_position(1, 3), Some(0));
    assert_eq!(entry_position(3, 3), Some(2));
    assert_eq!(entry_position(4, 3), None);
    assert!(ColorWhen::Always.should_color());
    assert!(!ColorWhen::Never.should_color());
    assert!(ColorWhen::Auto.color_for(true));
    assert!(!ColorWhen::Auto.color_for(false));
}
