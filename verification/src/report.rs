//! What a run of the Hurl runner reports, as plain values, and how the report becomes the
//! results that the API answers with.

use vstd::prelude::*;
use crate::models::{AssertionResult, AssertionResultV, ExecutionResult, ExecutionResultV, TimingInfo, pair_views};
use crate::num::{decimal, push_decimal};
use crate::pairs::{collect_pairs, map_from_pairs};
use crate::text::{chars_of, push_all, push_str, string_from_chars, eq_chars, join_texts, string_views, join_strings};

verus! {

/// One HTTP exchange of an entry.
pub struct CallReport {
    pub status: u32,
    pub headers: Vec<(String, String)>,
    pub body: String,
    pub duration_ms: u64,
}

/// One assert that the runner checked, its values already written as text.
pub enum AssertReport {
    ImplicitVersion { actual: String, expected: String },
    ImplicitStatus { actual: u64, expected: u64 },
    ImplicitHeader { actual: Result<String, String>, expected: String },
    /// `values_equal` holds when both values were read and are equal.
    ImplicitBody { actual: Result<String, String>, expected: Result<String, String>, values_equal: bool },
    Explicit { actual: Result<Option<String>, String>, predicate: Option<Result<(), String>> },
}

/// One entry of a run: its exchanges, its asserts and its errors (rendered).
pub struct EntryReport {
    pub calls: Vec<CallReport>,
    pub asserts: Vec<AssertReport>,
    pub errors: Vec<String>,
}

/// A run of a Hurl text: its entries and the errors of the whole run (rendered).
pub struct RunReport {
    pub entries: Vec<EntryReport>,
    pub errors: Vec<String>,
}

/// What the runner gave back: a report, or the text of the error that stopped it.
pub type RunOutcome = Result<RunReport, String>;

/// The text of an error read from a report.
pub open spec fn error_text(kind: Seq<char>) -> Seq<char> {
    "error: "@ + kind
}

/// How an assert of the runner reads in the API's answer.
pub open spec fn assertion_result_of(a: AssertReport) -> AssertionResultV {
    match a {
        AssertReport::ImplicitVersion { actual, expected } => AssertionResultV {
            query: "version"@,
            predicate: "=="@,
            expected: expected@,
            actual: actual@,
            passed: actual@ == expected@,
        },
        AssertReport::ImplicitStatus { actual, expected } => AssertionResultV {
            query: "status"@,
            predicate: "=="@,
            expected: decimal(expected as nat),
            actual: decimal(actual as nat),
            passed: actual == expected,
        },
        AssertReport::ImplicitHeader { actual, expected } => AssertionResultV {
            query: "header"@,
            predicate: "=="@,
            expected: expected@,
            actual: match actual {
                Ok(v) => v@,
                Err(k) => error_text(k@),
            },
            passed: match actual {
                Ok(v) => v@ == expected@,
                Err(_) => false,
            },
        },
        AssertReport::ImplicitBody { actual, expected, values_equal } => AssertionResultV {
            query: "body"@,
            predicate: "=="@,
            expected: match expected {
                Ok(v) => v@,
                Err(k) => error_text(k@),
            },
            actual: match actual {
                Ok(v) => v@,
                Err(k) => error_text(k@),
            },
            passed: actual is Ok && values_equal,
        },
        AssertReport::Explicit { actual, predicate } => AssertionResultV {
            query: "explicit"@,
            predicate: "custom"@,
            expected: match predicate {
                Some(Ok(())) => "predicate passed"@,
                Some(Err(k)) => k@,
                None => "predicate unavailable"@,
            },
            actual: match actual {
                Ok(Some(v)) => v@,
                Ok(None) => "null"@,
                Err(k) => error_text(k@),
            },
            passed: predicate matches Some(Ok(())),
        },
    }
}

/// An explicit assert reads as passed exactly when its predicate was evaluated and
/// succeeded: a predicate that failed, or that could not be evaluated, is not passed,
/// whatever value was read. The failure's text stands as what was expected.
pub proof fn lemma_explicit_passed(actual: Result<Option<String>, String>, predicate: Option<Result<(), String>>)
    ensures
        assertion_result_of(AssertReport::Explicit { actual, predicate }).passed <==> (predicate is Some
            && predicate->Some_0 is Ok),
        predicate is None ==> !assertion_result_of(AssertReport::Explicit { actual, predicate }).passed,
        (predicate is Some && predicate->Some_0 is Err) ==> {
            &&& !assertion_result_of(AssertReport::Explicit { actual, predicate }).passed
            &&& assertion_result_of(AssertReport::Explicit { actual, predicate }).expected == predicate->Some_0->Err_0@
        },
{
}

/// An implicit assert reads as passed exactly when the value read equals the one
/// expected; a header or body that could not be read is not passed.
pub proof fn lemma_implicit_passed(a: AssertReport)
    ensures
        a is ImplicitVersion ==> (assertion_result_of(a).passed <==> a->ImplicitVersion_actual@ == a->ImplicitVersion_expected@),
        a is ImplicitStatus ==> (assertion_result_of(a).passed <==> a->ImplicitStatus_actual == a->ImplicitStatus_expected),
        a is ImplicitHeader ==> (assertion_result_of(a).passed <==> (a->ImplicitHeader_actual is Ok
            && a->ImplicitHeader_actual->Ok_0@ == a->ImplicitHeader_expected@)),
        a is ImplicitBody ==> (assertion_result_of(a).passed <==> (a->ImplicitBody_actual is Ok
            && a->ImplicitBody_values_equal)),
{
}

fn lit(s: &str) -> (r: String)
    ensures
        r@ == s@,
{
    s.to_owned()
}

fn error_string(kind: &String) -> (r: String)
    ensures
        r@ == error_text(kind@),
{
    let mut out: Vec<char> = Vec::new();
    push_str(&mut out, "error: ");
    let k = chars_of(kind.as_str());
    push_all(&mut out, k.as_slice());
    string_from_chars(out.as_slice())
}

fn decimal_string(n: u64) -> (r: String)
    ensures
        r@ == decimal(n as nat),
{
    let mut out: Vec<char> = Vec::new();
    push_decimal(&mut out, n);
    proof {
        assert(out@ =~= decimal(n as nat));
    }
    string_from_chars(out.as_slice())
}

fn same_text(a: &String, b: &String) -> (r: bool)
    ensures
        r == (a@ == b@),
{
    let x = chars_of(a.as_str());
    let y = chars_of(b.as_str());
    eq_chars(x.as_slice(), y.as_slice())
}

/// How an assert of the runner reads in the API's answer.
pub fn to_assertion_result(a: &AssertReport) -> (r: AssertionResult)
    ensures
        r@ == assertion_result_of(*a),
{
    match a {
        AssertReport::ImplicitVersion { actual, expected } => AssertionResult {
            query: lit("version"),
            predicate: lit("=="),
            expected: expected.clone(),
            actual: actual.clone(),
            passed: same_text(actual, expected),
        },
        AssertReport::ImplicitStatus { actual, expected } => AssertionResult {
            query: lit("status"),
            predicate: lit("=="),
            expected: decimal_string(*expected),
            actual: decimal_string(*actual),
            passed: *actual == *expected,
        },
        AssertReport::ImplicitHeader { actual, expected } => {
            let (actual_value, passed) = match actual {
                Ok(v) => (v.clone(), same_text(v, expected)),
                Err(k) => (error_string(k), false),
            };
            AssertionResult {
                query: lit("header"),
                predicate: lit("=="),
                expected: expected.clone(),
                actual: actual_value,
                passed,
            }
        },
        AssertReport::ImplicitBody { actual, expected, values_equal } => {
            let expected_value = match expected {
                Ok(v) => v.clone(),
                Err(k) => error_string(k),
            };
            let (actual_value, passed) = match actual {
                Ok(v) => (v.clone(), *values_equal),
                Err(k) => (error_string(k), false),
            };
            AssertionResult {
                query: lit("body"),
                predicate: lit("=="),
                expected: expected_value,
                actual: actual_value,
                passed,
            }
        },
        AssertReport::Explicit { actual, predicate } => {
            let actual_value = match actual {
                Ok(Some(v)) => v.clone(),
                Ok(None) => lit("null"),
                Err(k) => error_string(k),
            };
            let (passed, expected_value) = match predicate {
                Some(Ok(())) => (true, lit("predicate passed")),
                Some(Err(k)) => (false, k.clone()),
                None => (false, lit("predicate unavailable")),
            };
            AssertionResult {
                query: lit("explicit"),
                predicate: lit("custom"),
                expected: expected_value,
                actual: actual_value,
                passed,
            }
        },
    }
}

/// The timing of an exchange that took `duration_ms`.
pub open spec fn timing_of(duration_ms: u64) -> TimingInfo {
    TimingInfo { duration_ms, connect_time_ms: None, tls_time_ms: None, transfer_time_ms: None }
}

/// The texts of errors joined with `, `, or `fallback` where there are none.
pub open spec fn errors_text(errors: Seq<String>, fallback: Seq<char>) -> Seq<char> {
    if errors.len() == 0 {
        fallback
    } else {
        join_texts(string_views(errors), ", "@)
    }
}

/// The result of entry `index` of a run: read from its first exchange, with its asserts and
/// its first error; an entry without an exchange fails with its errors (or with `No call
/// found in entry`).
pub open spec fn entry_outcome(e: EntryReport, index: usize) -> Result<ExecutionResultV, Seq<char>> {
    if e.calls@.len() == 0 {
        Err(errors_text(e.errors@, "No call found in entry"@))
    } else {
        let c = e.calls@[0];
        Ok(
            ExecutionResultV {
                entry_index: index,
                status: if c.status <= 0xffff { c.status as u16 } else { 0 },
                headers: map_from_pairs(pair_views(c.headers@)),
                body: c.body@,
                timing: Some(timing_of(c.duration_ms)),
                assertions: e.asserts@.map_values(|a: AssertReport| assertion_result_of(a)),
                error: if e.errors@.len() > 0 {
                    Some(e.errors@[0]@)
                } else {
                    None
                },
            },
        )
    }
}

/// The record of an entry that failed with `error`.
pub open spec fn failed_result(index: usize, error: Seq<char>) -> ExecutionResultV {
    ExecutionResultV {
        entry_index: index,
        status: 0,
        headers: seq![],
        body: seq![],
        timing: None,
        assertions: seq![],
        error: Some(error),
    }
}

/// The result of entry `index` of a run, a failure becoming its record.
pub open spec fn entry_result(e: EntryReport, index: usize) -> ExecutionResultV {
    match entry_outcome(e, index) {
        Ok(r) => r,
        Err(m) => failed_result(index, m),
    }
}

/// The results of a run, one per entry in order; a run without entries fails with the
/// errors of the run (or with `No executable entries found`).
pub open spec fn report_results(r: RunReport) -> Result<Seq<ExecutionResultV>, Seq<char>> {
    if r.entries@.len() == 0 {
        Err(errors_text(r.errors@, "No executable entries found"@))
    } else {
        Ok(Seq::new(r.entries@.len(), |i: int| entry_result(r.entries@[i], i as usize)))
    }
}

/// The results of running a whole text, or why there are none.
pub open spec fn file_results(outcome: RunOutcome) -> Result<Seq<ExecutionResultV>, Seq<char>> {
    match outcome {
        Err(e) => Err("Failed to run Hurl file: "@ + e@),
        Ok(r) => report_results(r),
    }
}

pub open spec fn results_view(r: Result<Vec<ExecutionResult>, String>) -> Result<Seq<ExecutionResultV>, Seq<char>> {
    match r {
        Ok(v) => Ok(v.deep_view()),
        Err(e) => Err(e@),
    }
}

pub open spec fn result_view(r: Result<ExecutionResult, String>) -> Result<ExecutionResultV, Seq<char>> {
    match r {
        Ok(v) => Ok(v@),
        Err(e) => Err(e@),
    }
}

fn errors_string(errors: &Vec<String>, fallback: &str) -> (r: String)
    ensures
        r@ == errors_text(errors@, fallback@),
{
    if errors.len() == 0 {
        fallback.to_owned()
    } else {
        join_strings(errors, ", ")
    }
}

fn assertion_results(asserts: &Vec<AssertReport>) -> (r: Vec<AssertionResult>)
    ensures
        r.deep_view() == asserts@.map_values(|a: AssertReport| assertion_result_of(a)),
{
    let mut r: Vec<AssertionResult> = Vec::new();
    let mut i: usize = 0;
    while i < asserts.len()
        invariant
            i <= asserts@.len(),
            r@.len() == i,
            forall|k: int| 0 <= k < i ==> #[trigger] r@[k]@ == assertion_result_of(asserts@[k]),
        decreases asserts.len() - i,
    {
        r.push(to_assertion_result(&asserts[i]));
        i = i + 1;
    }
    proof {
        assert(r.deep_view() =~= asserts@.map_values(|a: AssertReport| assertion_result_of(a)));
    }
    r
}

/// The result of entry `index` of a run (see `entry_outcome`).
pub fn convert_entry(e: &EntryReport, index: usize) -> (r: Result<ExecutionResult, String>)
    ensures
        result_view(r) == entry_outcome(*e, index),
{
    if e.calls.len() == 0 {
        return Err(errors_string(&e.errors, "No call found in entry"));
    }
    let c = &e.calls[0];
    let status: u16 = if c.status <= 0xffff { c.status as u16 } else { 0 };
    let error = if e.errors.len() > 0 {
        Some(e.errors[0].clone())
    } else {
        None
    };
    Ok(ExecutionResult {
        entry_index: index,
        status,
        headers: collect_pairs(&c.headers),
        body: c.body.clone(),
        timing: Some(TimingInfo {
            duration_ms: c.duration_ms,
            connect_time_ms: None,
            tls_time_ms: None,
            transfer_time_ms: None,
        }),
        assertions: assertion_results(&e.asserts),
        error,
    })
}

/// The results of a run (see `report_results`).
pub fn results_of_report(report: &RunReport) -> (r: Result<Vec<ExecutionResult>, String>)
    ensures
        results_view(r) == report_results(*report),
{
    if report.entries.len() == 0 {
        return Err(errors_string(&report.errors, "No executable entries found"));
    }
    let mut out: Vec<ExecutionResult> = Vec::new();
    let mut i: usize = 0;
    while i < report.entries.len()
        invariant
            i <= report.entries@.len(),
            out@.len() == i,
            forall|k: int| 0 <= k < i ==> #[trigger] out@[k]@ == entry_result(report.entries@[k], k as usize),
        decreases report.entries.len() - i,
    {
        let item = match convert_entry(&report.entries[i], i) {
            Ok(r) => r,
            Err(m) => {
                let failed = ExecutionResult {
                    entry_index: i,
                    status: 0,
                    headers: Vec::new(),
                    body: String::new(),
                    timing: None,
                    assertions: Vec::new(),
                    error: Some(m),
                };
                proof {
                    assert(failed@.headers =~= seq![]);
                    assert(failed@.assertions =~= seq![]);
                    assert(failed@.body =~= seq![]);
                    assert(failed@ == failed_result(i, m@));
                }
                failed
            },
        };
        out.push(item);
        i = i + 1;
    }
    proof {
        assert(out.deep_view() =~= Seq::new(report.entries@.len(), |k: int| entry_result(report.entries@[k], k as usize)));
    }
    Ok(out)
}

/// `prefix` followed by `text`.
pub fn prefixed(prefix: &str, text: &String) -> (r: String)
    ensures
        r@ == prefix@ + text@,
{
    let mut out: Vec<char> = Vec::new();
    push_str(&mut out, prefix);
    let tc = chars_of(text.as_str());
    push_all(&mut out, tc.as_slice());
    string_from_chars(out.as_slice())
}

/// The results of running a whole text (see `file_results`).
pub fn results_of(outcome: &RunOutcome) -> (r: Result<Vec<ExecutionResult>, String>)
    ensures
        results_view(r) == file_results(*outcome),
{
    match outcome {
        Err(e) => Err(prefixed("Failed to run Hurl file: ", e)),
        Ok(report) => results_of_report(report),
    }
}

} // verus!
