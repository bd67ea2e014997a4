//! The requests and responses of the runner's HTTP API.

use vstd::prelude::*;

verus! {

/// Variables handed to a run: name and value pairs.
pub type EnvVars = Vec<(String, String)>;

pub open spec fn pair_views(v: Seq<(String, String)>) -> Seq<(Seq<char>, Seq<char>)> {
    v.map_values(|p: (String, String)| (p.0@, p.1@))
}

pub struct ParseRequest {
    pub content: String,
}

pub struct RunEntryRequest {
    pub content: String,
    pub entry_index: usize,
    pub env: Option<EnvVars>,
}

pub struct RunToEndRequest {
    pub content: String,
    pub entry_index: usize,
    pub env: Option<EnvVars>,
}

pub struct RunFromBeginRequest {
    pub content: String,
    pub entry_index: usize,
    pub env: Option<EnvVars>,
}

pub struct RunSelectionRequest {
    pub content: String,
    pub selection: SelectionRange,
    pub env: Option<EnvVars>,
}

/// A range of lines, numbered from 1, both ends included.
#[derive(Debug, Clone, Copy, PartialEq, Eq, Structural)]
pub struct SelectionRange {
    pub start_line: u32,
    pub end_line: u32,
}

pub struct RunFileRequest {
    pub content: String,
    pub env: Option<EnvVars>,
}

pub struct BuildAssertionsRequest {
    pub content: String,
    pub entry_index: usize,
    pub env: Option<EnvVars>,
}

pub struct CancelRequest {
    pub run_id: String,
}

pub struct ParseResponse {
    pub entries: Vec<EntryInfo>,
}

/// Where an entry of a Hurl file stands and what it requests.
#[derive(Debug, Clone)]
pub struct EntryInfo {
    pub index: usize,
    pub start_line: u32,
    pub end_line: u32,
    pub method: String,
    pub url: String,
}

pub struct EntryInfoV {
    pub index: usize,
    pub start_line: u32,
    pub end_line: u32,
    pub method: Seq<char>,
    pub url: Seq<char>,
}

impl View for EntryInfo {
    type V = EntryInfoV;

    open spec fn view(&self) -> EntryInfoV {
        EntryInfoV {
            index: self.index,
            start_line: self.start_line,
            end_line: self.end_line,
            method: self.method@,
            url: self.url@,
        }
    }
}

impl DeepView for EntryInfo {
    type V = EntryInfoV;

    open spec fn deep_view(&self) -> EntryInfoV {
        self@
    }
}

pub struct RunFileResponse {
    pub results: Vec<ExecutionResult>,
}

/// The outcome of one entry of a run.
#[derive(Debug, Clone)]
pub struct ExecutionResult {
    pub entry_index: usize,
    pub status: u16,
    pub headers: Vec<(String, String)>,
    pub body: String,
    pub timing: Option<TimingInfo>,
    pub assertions: Vec<AssertionResult>,
    pub error: Option<String>,
}

pub struct ExecutionResultV {
    pub entry_index: usize,
    pub status: u16,
    pub headers: Seq<(Seq<char>, Seq<char>)>,
    pub body: Seq<char>,
    pub timing: Option<TimingInfo>,
    pub assertions: Seq<AssertionResultV>,
    pub error: Option<Seq<char>>,
}

impl View for ExecutionResult {
    type V = ExecutionResultV;

    open spec fn view(&self) -> ExecutionResultV {
        ExecutionResultV {
            entry_index: self.entry_index,
            status: self.status,
            headers: pair_views(self.headers@),
            body: self.body@,
            timing: self.timing,
            assertions: self.assertions.deep_view(),
            error: self.error.deep_view(),
        }
    }
}

impl DeepView for ExecutionResult {
    type V = ExecutionResultV;

    open spec fn deep_view(&self) -> ExecutionResultV {
        self@
    }
}

pub struct RequestInfo {
    pub method: String,
    pub url: String,
    pub headers: Vec<(String, String)>,
    pub body: Option<String>,
}

#[derive(Debug, Clone, Copy, PartialEq, Eq, Structural)]
pub struct TimingInfo {
    pub duration_ms: u64,
    pub connect_time_ms: Option<u64>,
    pub tls_time_ms: Option<u64>,
    pub transfer_time_ms: Option<u64>,
}

/// The outcome of one assert.
#[derive(Debug, Clone)]
pub struct AssertionResult {
    pub query: String,
    pub predicate: String,
    pub expected: String,
    pub actual: String,
    pub passed: bool,
}

pub struct AssertionResultV {
    pub query: Seq<char>,
    pub predicate: Seq<char>,
    pub expected: Seq<char>,
    pub actual: Seq<char>,
    pub passed: bool,
}

impl View for AssertionResult {
    type V = AssertionResultV;

    open spec fn view(&self) -> AssertionResultV {
        AssertionResultV {
            query: self.query@,
            predicate: self.predicate@,
            expected: self.expected@,
            actual: self.actual@,
            passed: self.passed,
        }
    }
}

impl DeepView for AssertionResult {
    type V = AssertionResultV;

    open spec fn deep_view(&self) -> AssertionResultV {
        self@
    }
}

#[derive(Debug)]
pub struct TestFileResponse {
    pub overall_pass: bool,
    pub total_assertions: usize,
    pub passed_assertions: usize,
    pub failed_assertions: usize,
    pub results: Vec<ExecutionResult>,
}

#[derive(Debug)]
pub struct BuildAssertionsResponse {
    pub content: String,
    pub assertions_added: usize,
}

pub struct ErrorResponse {
    pub error: String,
}

#[derive(Debug)]
pub struct CancelResponse {
    pub success: bool,
    pub message: String,
}

pub struct FileQuery {
    pub path: String,
}

pub struct FileReadQuery {
    pub path: String,
}

pub struct CreateFileRequest {
    pub path: String,
    pub content: Option<String>,
}

pub struct UpdateFileRequest {
    pub path: String,
    pub content: String,
}

pub struct FileContentResponse {
    pub content: String,
    pub path: String,
}

pub struct CreateFileResponse {
    pub success: bool,
    pub path: String,
}

} // verus!
