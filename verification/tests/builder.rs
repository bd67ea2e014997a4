use hurlbox::builder::{build_response_spec, BuildOptions, ResponseSnapshot, SuggestedAssert, SuggestedPredicate};

fn json_path(a: &SuggestedAssert) -> (String, String) {
    match a {
        SuggestedAssert::JsonPath { expression, predicate } => (expression.clone(), format!("{:?}", predicate)),
        SuggestedAssert::HeaderContains { header, value } => (header.clone(), value.clone()),
    }
}

#[test]
fn builds_content_type_and_field_asserts() {
    let snapshot = ResponseSnapshot {
        status: 200,
        headers: vec![("content-type".to_string(), "application/json; charset=utf-8".to_string())],
        body: "{\"name\": \"x\", \"id\": 1, \"tags\": [], \"ratio\": 0.5, \"nothing\": null}".to_string(),
    };
    let spec = build_response_spec(&snapshot, &BuildOptions::default());
    assert_eq!(spec.status, 200);
    let got: Vec<(String, String)> = spec.asserts.iter().map(json_path).collect();
    assert_eq!(
        got,
        vec![
            ("Content-Type".to_string(), "application/json".to_string()),
            ("$".to_string(), "IsCollection".to_string()),
            ("$.id".to_string(), "IsInteger".to_string()),
            ("$.name".to_string(), "IsString".to_string()),
            ("$.ratio".to_string(), "IsFloat".to_string()),
            ("$.tags".to_string(), "IsEmpty".to_string()),
        ]
    );
}

#[test]
fn array_body_and_field_limit() {
    let snapshot = ResponseSnapshot {
        status: 200,
        headers: vec![],
        body: "[{\"a\": true, \"b\": 2, \"c\": \"s\"}]".to_string(),
    };
    let options = BuildOptions { include_content_type_assert: true, max_json_field_asserts: 2 };
    let spec = build_response_spec(&snapshot, &options);
    let got: Vec<(String, String)> = spec.asserts.iter().map(json_path).collect();
    assert_eq!(
        got,
        vec![
            ("$".to_string(), "IsCollection".to_string()),
            ("$[0]".to_string(), "IsCollection".to_string()),
            ("$[0].a".to_string(), "IsBoolean".to_string()),
            ("$[0].b".to_string(), "IsInteger".to_string()),
        ]
    );
    assert!(matches!(spec.asserts[1], SuggestedAssert::JsonPath { predicate: SuggestedPredicate::IsCollection, .. }));
}

#[test]
fn non_json_body_gives_no_json_asserts() {
    let snapshot = ResponseSnapshot { status: 404, headers: vec![], body: "not json".to_string() };
    let options = BuildOptions { include_content_type_assert: false, max_json_field_asserts: 8 };
    let spec = build_response_spec(&snapshot, &options);
    assert_eq!(spec.status, 404);
    assert!(spec.asserts.is_empty());
    let defaults = BuildOptions::default();
    assert!(defaults.include_content_type_assert);
    assert_eq!(defaults.max_json_field_asserts, 8);
}

#[test]
fn number_beyond_i64_and_u64_is_suggested_as_float() {
    let snapshot = ResponseSnapshot {
        status: 200,
        headers: vec![],
        body: "{\"big\": 18446744073709551616, \"small\": -3, \"large\": 18446744073709551615}".to_string(),
    };
    let options = BuildOptions { include_content_type_assert: false, max_json_field_asserts: 8 };
    let spec = build_response_spec(&snapshot, &options);
    let got: Vec<(String, String)> = spec.asserts.iter().map(json_path).collect();
    assert_eq!(
        got,
        vec![
            ("$".to_string(), "IsCollection".to_string()),
            ("$.big".to_string(), "IsFloat".to_string()),
            ("$.large".to_string(), "IsInteger".to_string()),
            ("$.small".to_string(), "IsInteger".to_string()),
        ]
    );
}
