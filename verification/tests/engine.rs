use hurlbox::model::{Assert, Body, Capture, Entry, HurlFile, KeyValue, Method, Predicate, PredicateValue, Query, Request, ResponseSpec};
use hurlbox::parser::parse;
use hurlbox::serializer::{serialize, serialize_predicate, serialize_query};

#[test]
fn method_from_str_and_all() {
    assert!(matches!(Method::from_str("GET"), Some(Method::Get)));
    assert!(matches!(Method::from_str("delete"), Some(Method::Delete)));
    assert!(Method::from_str("FETCH").is_none());
    let all = Method::all();
    assert_eq!(all.len(), 7);
    let names: Vec<&str> = all.iter().map(|m| m.as_str()).collect();
    assert_eq!(names, vec!["GET", "POST", "PUT", "DELETE", "PATCH", "OPTIONS", "HEAD"]);
}

#[test]
fn method_names_read_back() {
    for m in Method::all() {
        assert_eq!(Method::from_str(m.as_str()), Some(m));
        assert_eq!(Method::from_str(&m.as_str().to_lowercase()), Some(m));
    }
}

#[test]
fn key_value_new_is_enabled() {
    let kv = KeyValue::new("Accept", "text/plain");
    assert_eq!(kv.key, "Accept");
    assert_eq!(kv.value, "text/plain");
    assert!(kv.enabled);
}

#[test]
fn parse_reads_requests_sections_and_asserts() {
    let text = "# first\nPOST https://example.com/api\nContent-Type: application/json\n[Query]\npage: 2\n{\"a\": 1}\n\nHTTP 201\nLocation: /x\n[Captures]\nid: jsonpath \"$.id\"\n[Asserts]\nstatus == 201\njsonpath \"$.name\" == \"bob\"\nheader \"X\" exists\n\nGET https://example.com/next\n";
    let file = parse(text);
    assert_eq!(file.entries.len(), 2);
    let e = &file.entries[0];
    assert_eq!(e.comment.as_deref(), Some("first"));
    assert!(matches!(e.request.method, Method::Post));
    assert_eq!(e.request.url, "https://example.com/api");
    assert_eq!(e.request.headers.len(), 1);
    assert_eq!(e.request.headers[0].key, "Content-Type");
    assert_eq!(e.request.query_params[0].value, "2");
    let resp = e.response_spec.as_ref().expect("response");
    assert_eq!(resp.status, Some(201));
    assert_eq!(resp.headers[0].key, "Location");
    assert_eq!(resp.captures[0].name, "id");
    assert!(matches!(&resp.captures[0].query, Query::JsonPath(p) if p == "$.id"));
    assert_eq!(resp.asserts.len(), 3);
    assert!(matches!(resp.asserts[0].predicate, Predicate::Equal(PredicateValue::Integer(201))));
    assert!(matches!(&resp.asserts[1].predicate, Predicate::Equal(PredicateValue::String(s)) if s == "bob"));
    assert!(matches!(resp.asserts[2].predicate, Predicate::Exists));
    assert!(matches!(&file.entries[1].request.method, Method::Get));
    assert!(file.entries[1].response_spec.is_none());
}

#[test]
fn parse_of_empty_text_has_no_entries() {
    assert!(parse("").entries.is_empty());
    assert!(parse("\n\n# only a comment\n").entries.is_empty());
}

#[test]
fn serialize_writes_entries() {
    let file = HurlFile {
        path: None,
        entries: vec![
            Entry {
                comment: Some("hello".to_string()),
                request: Request {
                    method: Method::Put,
                    url: "https://a.example".to_string(),
                    headers: vec![KeyValue::new("A", "1"), KeyValue { key: "B".to_string(), value: "2".to_string(), enabled: false }],
                    query_params: vec![KeyValue::new("q", "x")],
                    form_params: vec![],
                    cookies: vec![],
                    body: Some(Body::Text("hi".to_string())),
                    options: vec![],
                },
                response_spec: Some(ResponseSpec {
                    status: Some(200),
                    headers: vec![],
                    captures: vec![Capture { name: "c".to_string(), query: Query::Status }],
                    asserts: vec![Assert { query: Query::Header("X".to_string()), predicate: Predicate::NotExists }],
                }),
            },
            Entry { comment: None, request: Request::default(), response_spec: None },
        ],
    };
    let text = serialize(&file);
    assert_eq!(
        text,
        "# hello\nPUT https://a.example\nA: 1\n# B: 2\n[Query]\nq: x\n`hi`\nHTTP 200\n[Captures]\nc: status\n[Asserts]\nheader \"X\" not exists\n\nGET \n"
    );
}

#[test]
fn serialize_query_and_predicate_texts() {
    assert_eq!(serialize_query(&Query::Certificate("Subject".to_string())), "certificate \"Subject\"");
    assert_eq!(serialize_predicate(&Predicate::GreaterThan(PredicateValue::Integer(-3))), "> -3");
    assert_eq!(serialize_predicate(&Predicate::Matches("a+".to_string())), "matches \"a+\"");
    assert_eq!(serialize_predicate(&Predicate::Includes(PredicateValue::Null)), "includes null");
    assert_eq!(serialize_predicate(&Predicate::Equal(PredicateValue::Float("1.5".to_string()))), "== 1.5");
}

#[test]
fn serialize_then_parse_gives_back_a_simple_file() {
    let text = "GET https://a.example\nAccept: x\nHTTP 200\n\nDELETE https://b.example\nHTTP 404\n";
    let file = parse(text);
    assert_eq!(serialize(&file), text);
}

#[test]
fn parse_gives_back_a_serialized_file_of_headers() {
    let file = HurlFile {
        path: None,
        entries: vec![
            Entry {
                comment: None,
                request: Request {
                    method: Method::Post,
                    url: "https://a.example/x?y=1".to_string(),
                    headers: vec![KeyValue::new("Accept", "application/json"), KeyValue::new("X-Id", "a b")],
                    ..Request::default()
                },
                response_spec: Some(ResponseSpec {
                    status: Some(201),
                    headers: vec![KeyValue::new("Location", "/x/1")],
                    captures: vec![],
                    asserts: vec![],
                }),
            },
            Entry {
                comment: None,
                request: Request { method: Method::Head, url: "https://b.example".to_string(), ..Request::default() },
                response_spec: None,
            },
        ],
    };
    let text = serialize(&file);
    assert_eq!(parse(&text), file);
}

#[test]
fn parse_gives_back_a_serialized_file_with_sections() {
    let file = HurlFile {
        path: None,
        entries: vec![
            Entry {
                comment: None,
                request: Request {
                    method: Method::Get,
                    url: "https://a.example/search".to_string(),
                    headers: vec![KeyValue::new("Accept", "text/html")],
                    query_params: vec![KeyValue::new("q", "hurl"), KeyValue::new("page", "2")],
                    cookies: vec![KeyValue::new("session", "abc")],
                    ..Request::default()
                },
                response_spec: Some(ResponseSpec { status: Some(200), headers: vec![], captures: vec![], asserts: vec![] }),
            },
            Entry {
                comment: None,
                request: Request {
                    method: Method::Post,
                    url: "https://a.example/login".to_string(),
                    form_params: vec![KeyValue::new("user", "bob")],
                    options: vec![KeyValue::new("insecure", "true")],
                    ..Request::default()
                },
                response_spec: None,
            },
        ],
    };
    let text = serialize(&file);
    assert_eq!(
        text,
        "GET https://a.example/search\nAccept: text/html\n[Query]\nq: hurl\npage: 2\n[Cookies]\nsession: abc\nHTTP 200\n\nPOST https://a.example/login\n[Form]\nuser: bob\n[Options]\ninsecure: true\n"
    );
    assert_eq!(parse(&text), file);
}

#[test]
fn parse_gives_back_a_serialized_file_with_captures_and_asserts() {
    let file = HurlFile {
        path: None,
        entries: vec![Entry {
            comment: Some("list the items".to_string()),
            request: Request { method: Method::Get, url: "https://a.example/items".to_string(), ..Request::default() },
            response_spec: Some(ResponseSpec {
                status: Some(200),
                headers: vec![KeyValue::new("Content-Type", "application/json")],
                captures: vec![
                    Capture { name: "id".to_string(), query: Query::JsonPath("$.items[0].id".to_string()) },
                    Capture { name: "took".to_string(), query: Query::Duration },
                ],
                asserts: vec![
                    Assert { query: Query::Status, predicate: Predicate::Equal(PredicateValue::Integer(200)) },
                    Assert {
                        query: Query::Header("Content-Type".to_string()),
                        predicate: Predicate::Contains(PredicateValue::String("json".to_string())),
                    },
                    Assert {
                        query: Query::JsonPath("$.count".to_string()),
                        predicate: Predicate::GreaterThanOrEqual(PredicateValue::Integer(-3)),
                    },
                    Assert { query: Query::JsonPath("$.ok".to_string()), predicate: Predicate::NotEqual(PredicateValue::Bool(false)) },
                    Assert { query: Query::JsonPath("$.next".to_string()), predicate: Predicate::Equal(PredicateValue::Null) },
                    Assert {
                        query: Query::JsonPath("$.ratio".to_string()),
                        predicate: Predicate::LessThan(PredicateValue::Float("0.75".to_string())),
                    },
                    Assert {
                        query: Query::JsonPath("$.limit".to_string()),
                        predicate: Predicate::NotEqual(PredicateValue::Float("inf".to_string())),
                    },
                    Assert { query: Query::Body, predicate: Predicate::Matches("^ok.*$".to_string()) },
                    Assert { query: Query::Cookie("sid".to_string()), predicate: Predicate::NotExists },
                    Assert { query: Query::Certificate("Subject".to_string()), predicate: Predicate::IsString },
                    Assert { query: Query::Sha256, predicate: Predicate::StartsWith(PredicateValue::String("ab".to_string())) },
                ],
            }),
        }],
    };
    let text = serialize(&file);
    assert_eq!(parse(&text), file);
}

#[test]
fn comment_before_a_later_entry_is_read_into_the_entry_before() {
    let file = parse("# first\nGET https://a.example\n\n# second\nGET https://b.example\n");
    assert_eq!(file.entries.len(), 2);
    assert_eq!(file.entries[0].comment.as_deref(), Some("first\nsecond"));
    assert_eq!(file.entries[1].comment, None);
}

#[test]
fn parse_gives_back_a_response_without_status() {
    let file = HurlFile {
        path: None,
        entries: vec![
            Entry {
                comment: None,
                request: Request { method: Method::Get, url: "https://a.example".to_string(), ..Request::default() },
                response_spec: Some(ResponseSpec {
                    status: None,
                    headers: vec![],
                    captures: vec![],
                    asserts: vec![Assert { query: Query::Status, predicate: Predicate::LessThan(PredicateValue::Integer(500)) }],
                }),
            },
            Entry {
                comment: None,
                request: Request { method: Method::Post, url: "https://b.example".to_string(), ..Request::default() },
                response_spec: Some(ResponseSpec {
                    status: None,
                    headers: vec![],
                    captures: vec![Capture { name: "where".to_string(), query: Query::Header("Location".to_string()) }],
                    asserts: vec![],
                }),
            },
        ],
    };
    let text = serialize(&file);
    assert_eq!(text, "GET https://a.example\n[Asserts]\nstatus < 500\n\nPOST https://b.example\n[Captures]\nwhere: header \"Location\"\n");
    assert_eq!(parse(&text), file);
}

#[test]
fn parse_gives_back_an_empty_url_and_an_empty_header_value() {
    let file = HurlFile {
        path: None,
        entries: vec![Entry {
            comment: None,
            request: Request {
                method: Method::Get,
                url: String::new(),
                headers: vec![KeyValue::new("X-Empty", ""), KeyValue::new("Accept", "x")],
                ..Request::default()
            },
            response_spec: None,
        }],
    };
    let text = serialize(&file);
    assert_eq!(text, "GET \nX-Empty: \nAccept: x\n");
    assert_eq!(parse(&text), file);
}
