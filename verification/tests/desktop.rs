use hurlbox::desktop::{
    pretty_print_body, AranshiApp, KeyValueEditor, KeyValueRow, ReceivedResponse, RequestBuilder, RequestTab,
    ResponseTab, ResponseViewer, StatusClass,
};
use hurlbox::model::{Assert, Body, KeyValue, Method, Predicate, PredicateValue, Query, Request};
use hurlbox::parser::parse;
use std::path::PathBuf;

fn row(key: &str, value: &str, enabled: bool) -> KeyValueRow {
    KeyValueRow { key: key.to_string(), value: value.to_string(), enabled }
}

#[test]
fn editor_keeps_rows_and_skips_empty_ones() {
    let mut editor = KeyValueEditor::from_key_values(&[KeyValue::new("Accept", "x"), KeyValue::new("X-Id", "1")]);
    assert_eq!(editor.rows.len(), 2);
    editor.add_row();
    assert_eq!(editor.rows.len(), 3);
    assert_eq!(editor.rows[2].key, "");
    assert!(editor.rows[2].enabled);
    editor.rows.push(row("", "only value", false));
    let pairs = editor.to_key_values();
    assert_eq!(
        pairs,
        vec![
            KeyValue::new("Accept", "x"),
            KeyValue::new("X-Id", "1"),
            KeyValue { key: String::new(), value: "only value".to_string(), enabled: false },
        ]
    );
    editor.remove_row(0);
    assert_eq!(editor.rows.len(), 3);
    assert_eq!(editor.rows[0].key, "X-Id");
    editor.remove_row(7);
    assert_eq!(editor.rows.len(), 3);
    assert!(KeyValueEditor::new().rows.is_empty());
}

#[test]
fn builder_shows_a_request_and_gives_its_parts_back() {
    let request = Request {
        method: Method::Post,
        url: "https://a.example".to_string(),
        headers: vec![KeyValue::new("Accept", "x")],
        query_params: vec![KeyValue::new("q", "1")],
        cookies: vec![KeyValue::new("s", "abc")],
        body: Some(Body::File("data.bin".to_string())),
        ..Request::default()
    };
    let builder = RequestBuilder::from_request(&request);
    assert_eq!(builder.active_tab, RequestTab::Headers);
    assert_eq!(builder.body_input, "file:data.bin");
    let (headers, params, cookies, body) = builder.to_request_parts();
    assert_eq!(headers, request.headers);
    assert_eq!(params, request.query_params);
    assert_eq!(cookies, request.cookies);
    assert_eq!(body, Some(Body::Json("file:data.bin".to_string())));

    let b64 = Request { body: Some(Body::Base64("QUJD".to_string())), ..Request::default() };
    assert_eq!(RequestBuilder::from_request(&b64).body_input, "base64:QUJD");
    let empty = RequestBuilder::new();
    assert_eq!(empty.to_request_parts().3, None);
}

#[test]
fn viewer_shows_the_first_response_or_an_error() {
    let mut viewer = ResponseViewer::new();
    assert_eq!(viewer.active_tab, ResponseTab::Body);
    viewer.set_loading();
    assert!(viewer.loading);
    viewer.show_run_result(Ok(vec![]));
    assert!(!viewer.loading);
    assert_eq!(viewer.error.as_deref(), Some("No response received"));
    let first = ReceivedResponse { status: 201, headers: vec![], body: "a".to_string(), size_bytes: 1 };
    let second = ReceivedResponse { status: 404, headers: vec![], body: "b".to_string(), size_bytes: 1 };
    viewer.show_run_result(Ok(vec![first, second]));
    assert_eq!(viewer.response.as_ref().map(|r| r.status), Some(201));
    assert_eq!(viewer.error, None);
    viewer.show_run_result(Err("refused".to_string()));
    assert!(viewer.response.is_none());
    assert_eq!(viewer.error.as_deref(), Some("refused"));
}

#[test]
fn client_builds_its_file_with_the_suggested_response() {
    let mut app = AranshiApp::new();
    assert_eq!(app.method_display(), "GET");
    assert_eq!(app.method_color(), 0xa6e3a1);
    app.method = Method::Post;
    assert_eq!(app.method_color(), 0xf9e2af);
    app.url_input = "https://a.example/x".to_string();
    app.request_builder.headers_editor.rows.push(row("Accept", "application/json", true));
    app.request_builder.headers_editor.rows.push(row("", "", true));
    app.request_builder.body_input = "{}".to_string();
    app.update_preview();
    assert_eq!(app.hurl_preview.content, "POST https://a.example/x\nAccept: application/json\n{}\n");

    assert_eq!(app.build_response_spec_from_last_response(), None);
    app.response_viewer.set_response(ReceivedResponse {
        status: 200,
        headers: vec![KeyValue::new("Content-Type", "application/json")],
        body: "{\"id\": 1}".to_string(),
        size_bytes: 9,
    });
    let spec = app.build_response_spec_from_last_response().unwrap();
    assert_eq!(spec.status, Some(200));
    assert!(spec.headers.is_empty());
    assert_eq!(
        spec.asserts,
        vec![
            Assert {
                query: Query::Header("Content-Type".to_string()),
                predicate: Predicate::Contains(PredicateValue::String("application/json".to_string())),
            },
            Assert { query: Query::JsonPath("$".to_string()), predicate: Predicate::IsCollection },
            Assert { query: Query::JsonPath("$.id".to_string()), predicate: Predicate::IsInteger },
        ]
    );
    let file = app.build_hurl_file(true);
    assert_eq!(file.entries.len(), 1);
    assert_eq!(file.entries[0].response_spec, Some(spec));
    assert_eq!(app.build_hurl_file(false).entries[0].response_spec, None);
    assert!(app.saved_content().contains("HTTP 200\n[Asserts]\n"));
}

#[test]
fn client_opens_a_file_on_its_first_entry() {
    let mut app = AranshiApp::new();
    let text = "PUT https://b.example\nX-A: 1\n[Query]\nq: 2\nHTTP 204\n\nGET https://c.example\n";
    app.open_content(PathBuf::from("a.hurl"), text);
    assert_eq!(app.file_path, Some(PathBuf::from("a.hurl")));
    assert_eq!(app.method, Method::Put);
    assert_eq!(app.url_input, "https://b.example");
    assert_eq!(app.request_builder.to_request_parts().0, vec![KeyValue::new("X-A", "1")]);
    assert_eq!(app.request_builder.to_request_parts().1, vec![KeyValue::new("q", "2")]);
    assert_eq!(app.hurl_preview.content, hurlbox::serializer::serialize(&parse(text)));

    let mut other = AranshiApp::new();
    other.open_content(PathBuf::from("b.hurl"), "# nothing here\n");
    assert_eq!(other.method, Method::Get);
    assert_eq!(other.hurl_preview.content, "");
}

#[test]
fn builder_gives_back_a_request_with_a_json_body() {
    let request = Request {
        method: Method::Put,
        url: "https://a.example/x".to_string(),
        headers: vec![KeyValue::new("Accept", "application/json")],
        query_params: vec![KeyValue { key: "flag".to_string(), value: String::new(), enabled: false }],
        cookies: vec![],
        body: Some(Body::Json("{\"a\": 1}".to_string())),
        ..Request::default()
    };
    let (headers, params, cookies, body) = RequestBuilder::from_request(&request).to_request_parts();
    assert_eq!(headers, request.headers);
    assert_eq!(params, request.query_params);
    assert_eq!(cookies, request.cookies);
    assert_eq!(body, request.body);
}

#[test]
fn client_file_keeps_the_path_being_edited() {
    let mut app = AranshiApp::new();
    app.url_input = "https://a.example".to_string();
    app.file_path = Some(PathBuf::from("dir/a.hurl"));
    let file = app.build_hurl_file(false);
    assert_eq!(file.path, Some(PathBuf::from("dir/a.hurl")));
    assert_eq!(file.entries[0].request.url, "https://a.example");
    assert_eq!(file.entries[0].request.method, Method::Get);
}

#[test]
fn viewer_classes_statuses_and_pretty_prints_json() {
    assert_eq!(ResponseViewer::status_class(204), StatusClass::Success);
    assert_eq!(ResponseViewer::status_class(301), StatusClass::Redirection);
    assert_eq!(ResponseViewer::status_class(404), StatusClass::ClientError);
    assert_eq!(ResponseViewer::status_class(503), StatusClass::ServerError);
    assert_eq!(ResponseViewer::status_class(199), StatusClass::Other);
    assert_eq!(ResponseViewer::status_class(600), StatusClass::Other);
    assert_eq!(pretty_print_body("{\"a\":1}"), "{\n  \"a\": 1\n}");
    assert_eq!(pretty_print_body("not json"), "not json");
}
