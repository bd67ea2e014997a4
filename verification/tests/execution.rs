use hurlbox::execution::{
    build_assertions_for_entry, cancel_execution, last_result_or_error, rerun_last, rerun_last_job,
    run_entry, run_entry_job, run_file, run_file_job, run_from_begin, run_selection, run_selection_job,
    run_to_end, test_file, ExecutionHistory, LastExecutionCommand,
};
use hurlbox::entries::parse_hurl_entries;
use hurlbox::models::{ExecutionResult, SelectionRange};
use hurlbox::report::{AssertReport, CallReport, EntryReport, RunOutcome, RunReport};

fn call(status: u32, headers: Vec<(&str, &str)>, body: &str) -> CallReport {
    CallReport {
        status,
        headers: headers.into_iter().map(|(k, v)| (k.to_string(), v.to_string())).collect(),
        body: body.to_string(),
        duration_ms: 12,
    }
}

fn entry_with_call(c: CallReport) -> EntryReport {
    EntryReport { calls: vec![c], asserts: vec![], errors: vec![] }
}

fn report(entries: Vec<EntryReport>) -> RunOutcome {
    Ok(RunReport { entries, errors: vec![] })
}

// With backslashes before the quotes of `header \"Content-Type\"`, hurl_core refuses the
// text (checked below); with plain quotes, the request lines stand at 1, 6, 11 and 16 (lines
// 12 and 18 hold a status line and a section header, no request line).
#[test]
fn parses_last_entry_without_missing_run_line() {
    let escaped = "GET https://jsonplaceholder.typicode.com/todos/\nHTTP 200\n[Asserts]\nheader \\\"Content-Type\\\" contains \\\"application/json\\\"\n";
    assert!(parse_hurl_entries(escaped).is_err());
    let content = r#"GET https://jsonplaceholder.typicode.com/todos/
HTTP 200
[Asserts]
header "Content-Type" contains "application/json"

GET https://jsonplaceholder.typicode.com/todos/1
HTTP 200
[Asserts]
header "Content-Type" contains "application/json"

GET https://jsonplaceholder.typicode.com/todos/1
HTTP 200
[Asserts]
header "Content-Type" contains "application/json"

GET https://jsonplaceholder.typicode.com/todos/1
HTTP 200
[Asserts]
header "Content-Type" contains "application/json""#;

    let entries = parse_hurl_entries(content).expect("expected parse success");
    let starts: Vec<u32> = entries.iter().map(|entry| entry.start_line).collect();
    assert_eq!(starts, vec![1, 6, 11, 16]);
    assert_eq!(entries[1].method, "GET");
    assert_eq!(entries[1].url, "https://jsonplaceholder.typicode.com/todos/1");
    assert_eq!(entries[3].index, 3);
}

#[test]
fn run_selection_rejects_invalid_range_order() {
    let content = "GET https://example.com\nHTTP 200";
    let err = match run_selection_job(content, SelectionRange { start_line: 3, end_line: 2 }, &None) {
        Err(e) => e,
        Ok(_) => panic!("expected invalid range to error"),
    };

    assert!(err.contains("start_line"));
}

#[test]
fn run_selection_rejects_start_outside_file() {
    let content = "GET https://example.com\nHTTP 200";
    let err = match run_selection_job(content, SelectionRange { start_line: 10, end_line: 10 }, &None) {
        Err(e) => e,
        Ok(_) => panic!("expected out-of-range selection to error"),
    };

    assert!(err.contains("outside file"));
}

#[test]
fn run_entry_surfaces_undefined_variable_error() {
    let content = "GET {{base_url}}/api/files?path=examples\nHTTP 200";
    // The text parses, so the whole text is to be run.
    let job = run_entry_job(content, 0, &None).expect("the entry exists");
    assert_eq!(job.content, content);
    // What the runner reports for it: the entry could not be sent.
    let undefined = "error: Undefined variable\n  --> 1:7\n   |\n 1 | GET {{base_url}}/api/files?path=examples\n   |       ^^^^^^^^ you must set the variable base_url".to_string();
    let outcome = Ok(RunReport {
        entries: vec![EntryReport { calls: vec![], asserts: vec![], errors: vec![undefined] }],
        errors: vec![],
    });
    let mut history = ExecutionHistory::new();
    let err = run_entry(&mut history, content, 0, None, outcome).expect_err("expected undefined variable error");

    assert!(err.contains("Undefined") || err.contains("base_url"));
}

#[test]
fn run_entry_rejects_missing_entry_and_bad_text() {
    let err = run_entry_job("GET https://example.com\nHTTP 200", 3, &None).err().unwrap();
    assert_eq!(err, "Entry index out of bounds");
    let err = run_entry_job("get https://example.com", 0, &None).err().unwrap();
    assert_eq!(err, "line 1, col 1: Method { name: \"get\" }");
}

#[test]
fn run_entry_picks_its_result_and_is_remembered() {
    let content = "GET https://a.example\nHTTP 200\n\nGET https://b.example\nHTTP 200";
    let outcome = report(vec![
        entry_with_call(call(200, vec![("a", "1")], "first")),
        entry_with_call(call(201, vec![("b", "2"), ("b", "3")], "second")),
    ]);
    let mut history = ExecutionHistory::new();
    let r = run_entry(&mut history, content, 1, None, outcome).expect("ran");
    assert_eq!(r.entry_index, 1);
    assert_eq!(r.status, 201);
    assert_eq!(r.body, "second");
    assert_eq!(r.headers, vec![("b".to_string(), "3".to_string())]);
    assert_eq!(r.timing.unwrap().duration_ms, 12);
    match &history.last {
        Some(LastExecutionCommand::RunEntry { content: c, entry_index, .. }) => {
            assert_eq!(c, content);
            assert_eq!(*entry_index, 1);
        },
        _ => panic!("run entry should be remembered"),
    }
    // Running it again runs the whole text and keeps that run as the last one.
    let job = rerun_last_job(&history).expect("something to rerun");
    assert_eq!(job.content, content);
    let again = rerun_last(&mut history, report(vec![
        entry_with_call(call(200, vec![], "x")),
        entry_with_call(call(202, vec![], "y")),
    ]))
    .expect("reran");
    assert_eq!(again.status, 202);
    assert!(matches!(history.last, Some(LastExecutionCommand::RunFile { .. })));
}

#[test]
fn status_out_of_range_reads_as_zero() {
    let mut history = ExecutionHistory::new();
    let rs = run_file(&mut history, "GET https://a.example", None, report(vec![entry_with_call(call(70000, vec![], ""))]))
        .expect("ran");
    assert_eq!(rs[0].status, 0);
}

#[test]
fn runner_failure_and_empty_run() {
    let mut history = ExecutionHistory::new();
    let err = run_file(&mut history, "x", None, Err("boom".to_string())).err().unwrap();
    assert_eq!(err, "Failed to run Hurl file: boom");
    assert!(history.last.is_none());
    let err = run_file(&mut history, "x", None, Ok(RunReport { entries: vec![], errors: vec![] })).err().unwrap();
    assert_eq!(err, "No executable entries found");
    let err = run_file(
        &mut history,
        "x",
        None,
        Ok(RunReport { entries: vec![], errors: vec!["e1".to_string(), "e2".to_string()] }),
    )
    .err()
    .unwrap();
    assert_eq!(err, "e1, e2");
    assert!(history.last.is_none());
}

#[test]
fn entry_without_exchange_becomes_failed_record() {
    let mut history = ExecutionHistory::new();
    let rs = run_file(
        &mut history,
        "x",
        None,
        report(vec![EntryReport { calls: vec![], asserts: vec![], errors: vec![] }]),
    )
    .expect("ran");
    assert_eq!(rs.len(), 1);
    assert_eq!(rs[0].status, 0);
    assert!(rs[0].timing.is_none());
    assert_eq!(rs[0].error.as_deref(), Some("No call found in entry"));
    assert!(matches!(history.last, Some(LastExecutionCommand::RunFile { .. })));
}

#[test]
fn run_to_end_and_from_begin_filter_by_index() {
    let outcome = || {
        report(vec![
            entry_with_call(call(200, vec![], "0")),
            entry_with_call(call(200, vec![], "1")),
            entry_with_call(call(200, vec![], "2")),
        ])
    };
    let mut history = ExecutionHistory::new();
    let to_end: Vec<usize> =
        run_to_end(&mut history, "t", 1, None, outcome()).unwrap().iter().map(|r| r.entry_index).collect();
    assert_eq!(to_end, vec![1, 2]);
    let from_begin: Vec<usize> =
        run_from_begin(&mut history, "t", 1, None, outcome()).unwrap().iter().map(|r| r.entry_index).collect();
    assert_eq!(from_begin, vec![0, 1]);
    // Running run-from-begin again answers with the last of its results.
    let last = rerun_last(&mut history, outcome()).unwrap();
    assert_eq!(last.entry_index, 1);
    let none = run_to_end(&mut history, "t", 7, None, outcome()).unwrap();
    assert!(none.is_empty());
    let err = rerun_last(&mut history, outcome()).err().unwrap();
    assert_eq!(err, "run-to-end produced no execution results");
}

#[test]
fn rerun_without_history_fails() {
    let mut history = ExecutionHistory::new();
    assert_eq!(rerun_last_job(&history).err().unwrap(), "No previous run available to rerun");
    assert_eq!(rerun_last(&mut history, report(vec![])).err().unwrap(), "No previous run available to rerun");
}

#[test]
fn selection_errors_and_selected_text() {
    let content = "GET https://a.example\nHTTP 200\n\nGET https://b.example\nHTTP 200";
    let e = |s: u32, t: u32| run_selection_job(content, SelectionRange { start_line: s, end_line: t }, &None).err();
    assert_eq!(e(0, 2).unwrap(), "Selection lines are 1-based and must be greater than 0");
    assert_eq!(e(3, 2).unwrap(), "Selection start_line must be <= end_line");
    assert_eq!(e(9, 9).unwrap(), "Selection start_line 9 is outside file (5 lines)");
    assert_eq!(
        run_selection_job("", SelectionRange { start_line: 1, end_line: 1 }, &None).err().unwrap(),
        "Cannot run selection on empty content"
    );
    let job = run_selection_job(content, SelectionRange { start_line: 4, end_line: 99 }, &None).unwrap();
    assert_eq!(job.content, "GET https://b.example\nHTTP 200");
    let mut history = ExecutionHistory::new();
    let sel = SelectionRange { start_line: 4, end_line: 5 };
    let err = run_selection(&mut history, content, sel, None, Err("bad".to_string())).err().unwrap();
    assert_eq!(err, "Failed to run selection: bad");
    let err = run_selection(&mut history, content, sel, None, report(vec![])).err().unwrap();
    assert_eq!(err, "No entry found in Hurl result");
    assert!(history.last.is_none());
    let r = run_selection(&mut history, content, sel, None, report(vec![entry_with_call(call(204, vec![], ""))])).unwrap();
    assert_eq!(r.entry_index, 0);
    assert_eq!(r.status, 204);
    assert!(matches!(history.last, Some(LastExecutionCommand::RunSelection { .. })));
}

#[test]
fn test_file_counts_asserts() {
    let mut e0 = entry_with_call(call(200, vec![], ""));
    e0.asserts = vec![
        AssertReport::ImplicitStatus { actual: 200, expected: 200 },
        AssertReport::ImplicitStatus { actual: 404, expected: 200 },
        AssertReport::Explicit { actual: Ok(Some("1".to_string())), predicate: Some(Ok(())) },
    ];
    let r = test_file("t", None, report(vec![e0])).unwrap();
    assert_eq!(r.total_assertions, 3);
    assert_eq!(r.passed_assertions, 2);
    assert_eq!(r.failed_assertions, 1);
    assert!(!r.overall_pass);
    assert_eq!(r.results[0].assertions[1].actual, "404");
    assert_eq!(r.results[0].assertions[1].expected, "200");

    let mut e1 = entry_with_call(call(200, vec![], ""));
    e1.errors = vec!["assert failed".to_string()];
    let r = test_file("t", None, report(vec![e1])).unwrap();
    assert_eq!(r.total_assertions, 0);
    assert!(!r.overall_pass);
    let r = test_file("t", None, report(vec![entry_with_call(call(200, vec![], ""))])).unwrap();
    assert!(r.overall_pass);
}

#[test]
fn last_result_and_cancel() {
    let err = last_result_or_error(Vec::<ExecutionResult>::new(), "run-file").err().unwrap();
    assert_eq!(err, "run-file produced no execution results");
    let c = cancel_execution("42").unwrap();
    assert!(c.success);
    assert_eq!(c.message, "Cancellation requested for run ID: 42");
    let job = run_file_job("GET x", &Some(vec![("k".to_string(), "v".to_string())]));
    assert_eq!(job.env.unwrap()[0].1, "v");
}

#[test]
fn build_assertions_writes_json_asserts() {
    let content = "GET https://a.example\nHTTP 200";
    let outcome = report(vec![entry_with_call(call(200, vec![], "{\"id\": 1, \"name\": \"x\"}"))]);
    let mut history = ExecutionHistory::new();
    let b = build_assertions_for_entry(&mut history, content, 0, None, outcome).unwrap();
    assert_eq!(b.assertions_added, 2);
    assert_eq!(
        b.content,
        "GET https://a.example\nHTTP 200\n[Asserts]\njsonpath \"$.id\" == 1\njsonpath \"$.name\" == \"x\""
    );
    assert!(matches!(history.last, Some(LastExecutionCommand::RunFile { .. })));
}
