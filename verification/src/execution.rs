//! The run commands of the API. The runner itself (sending the requests of a Hurl text)
//! is outside work: each command first says what to run (a `RunJob`), or why nothing is to
//! be run, and then turns what the runner reported into the command's answer, keeping the
//! last command that succeeded so that it can be run again.

use vstd::prelude::*;
use crate::assertions::{generate_json_assertions, injected_into_entry, inject_assertions_into_entry, json_assertions};
use crate::entries::{hurl_entries, parse_hurl_entries, parsed_hurl};
use crate::json::parsed_json;
use crate::models::{
    AssertionResultV, BuildAssertionsResponse, CancelResponse, EnvVars, ExecutionResult, ExecutionResultV,
    SelectionRange, TestFileResponse, pair_views,
};
use crate::num::{decimal, push_decimal};
use crate::report::{
    AssertReport, RunOutcome, assertion_result_of, entry_result, convert_entry, entry_outcome, file_results, prefixed, report_results,
    result_view, results_of, results_of_report, results_view,
};
use crate::text::{
    char_views, chars_of, join_texts, joined_lines, lines, lines_of, push_all, push_str,
    string_from_chars,
};

verus! {

/// Variables as plain values.
pub open spec fn env_view(env: Option<EnvVars>) -> Option<Seq<(Seq<char>, Seq<char>)>> {
    match env {
        Some(v) => Some(pair_views(v@)),
        None => None,
    }
}

/// A Hurl text for the runner to run, with the variables to run it with.
pub struct RunJob {
    pub content: String,
    pub env: Option<EnvVars>,
}

pub struct RunJobV {
    pub content: Seq<char>,
    pub env: Option<Seq<(Seq<char>, Seq<char>)>>,
}

impl View for RunJob {
    type V = RunJobV;

    open spec fn view(&self) -> RunJobV {
        RunJobV { content: self.content@, env: env_view(self.env) }
    }
}

pub open spec fn job_view(r: Result<RunJob, String>) -> Result<RunJobV, Seq<char>> {
    match r {
        Ok(j) => Ok(j@),
        Err(e) => Err(e@),
    }
}

/// A command that ran, kept so that it can be run again.
pub enum LastExecutionCommand {
    RunEntry { content: String, entry_index: usize, env: Option<EnvVars> },
    RunToEnd { content: String, entry_index: usize, env: Option<EnvVars> },
    RunFromBegin { content: String, entry_index: usize, env: Option<EnvVars> },
    RunSelection { content: String, selection: SelectionRange, env: Option<EnvVars> },
    RunFile { content: String, env: Option<EnvVars> },
}

pub enum CommandV {
    RunEntry { content: Seq<char>, entry_index: usize, env: Option<Seq<(Seq<char>, Seq<char>)>> },
    RunToEnd { content: Seq<char>, entry_index: usize, env: Option<Seq<(Seq<char>, Seq<char>)>> },
    RunFromBegin { content: Seq<char>, entry_index: usize, env: Option<Seq<(Seq<char>, Seq<char>)>> },
    RunSelection { content: Seq<char>, selection: SelectionRange, env: Option<Seq<(Seq<char>, Seq<char>)>> },
    RunFile { content: Seq<char>, env: Option<Seq<(Seq<char>, Seq<char>)>> },
}

impl View for LastExecutionCommand {
    type V = CommandV;

    open spec fn view(&self) -> CommandV {
        match self {
            LastExecutionCommand::RunEntry { content, entry_index, env } => CommandV::RunEntry {
                content: content@,
                entry_index: *entry_index,
                env: env_view(*env),
            },
            LastExecutionCommand::RunToEnd { content, entry_index, env } => CommandV::RunToEnd {
                content: content@,
                entry_index: *entry_index,
                env: env_view(*env),
            },
            LastExecutionCommand::RunFromBegin { content, entry_index, env } => CommandV::RunFromBegin {
                content: content@,
                entry_index: *entry_index,
                env: env_view(*env),
            },
            LastExecutionCommand::RunSelection { content, selection, env } => CommandV::RunSelection {
                content: content@,
                selection: *selection,
                env: env_view(*env),
            },
            LastExecutionCommand::RunFile { content, env } => CommandV::RunFile {
                content: content@,
                env: env_view(*env),
            },
        }
    }
}

/// The commands of a session: the last one that succeeded, if any.
pub struct ExecutionHistory {
    pub last: Option<LastExecutionCommand>,
}

impl View for ExecutionHistory {
    type V = Option<CommandV>;

    open spec fn view(&self) -> Option<CommandV> {
        match self.last {
            Some(c) => Some(c@),
            None => None,
        }
    }
}

impl ExecutionHistory {
    /// A session in which nothing has run.
    pub fn new() -> (r: ExecutionHistory)
        ensures
            r@ is None,
    {
        ExecutionHistory { last: None }
    }
}

/// A run that is under way, named by the client.
pub struct ExecutionHandle {}

fn copy_env(env: &Option<EnvVars>) -> (r: Option<EnvVars>)
    ensures
        env_view(r) == env_view(*env),
{
    match env {
        None => None,
        Some(v) => {
            let mut out: EnvVars = Vec::new();
            let mut i: usize = 0;
            while i < v.len()
                invariant
                    i <= v@.len(),
                    out@.len() == i,
                    forall|k: int| 0 <= k < i ==> #[trigger] out@[k].0@ == v@[k].0@ && out@[k].1@ == v@[k].1@,
                decreases v.len() - i,
            {
                out.push((v[i].0.clone(), v[i].1.clone()));
                i = i + 1;
            }
            proof {
                assert(pair_views(out@) =~= pair_views(v@));
            }
            Some(out)
        },
    }
}

fn job(content: &str, env: &Option<EnvVars>) -> (r: RunJob)
    ensures
        r@ == (RunJobV { content: content@, env: env_view(*env) }),
{
    RunJob { content: content.to_owned(), env: copy_env(env) }
}

// ---------------------------------------------------------------------------------------
// Running one entry

/// Why an entry cannot be run: the text does not parse, or has no entry `entry_index`.
pub open spec fn entry_check(content: Seq<char>, entry_index: usize) -> Option<Seq<char>> {
    match hurl_entries(content, parsed_hurl(content)) {
        Err(e) => Some(e),
        Ok(es) => {
            if entry_index < es.len() {
                None
            } else {
                Some("Entry index out of bounds"@)
            }
        },
    }
}

/// The first error among results.
pub open spec fn first_error(rs: Seq<ExecutionResultV>) -> Option<Seq<char>>
    decreases rs.len(),
{
    if rs.len() == 0 {
        None
    } else {
        match rs[0].error {
            Some(e) => Some(e),
            None => first_error(rs.drop_first()),
        }
    }
}

/// Entry `entry_index` picked from a run of the whole text: its result, the error that kept
/// it from running, or, where the run has no such entry, the first error of the run (or
/// `Entry execution failed`).
pub open spec fn picked_entry(outcome: RunOutcome, entry_index: usize) -> Result<ExecutionResultV, Seq<char>> {
    match file_results(outcome) {
        Err(e) => Err(e),
        Ok(rs) => {
            if entry_index < rs.len() {
                entry_outcome(outcome->Ok_0.entries@[entry_index as int], entry_index)
            } else {
                match first_error(rs) {
                    Some(e) => Err(e),
                    None => Err("Entry execution failed"@),
                }
            }
        },
    }
}

/// The answer to running entry `entry_index` of `content`, the runner having reported
/// `outcome` for the whole text.
pub open spec fn entry_run(content: Seq<char>, entry_index: usize, outcome: RunOutcome) -> Result<ExecutionResultV, Seq<char>> {
    match entry_check(content, entry_index) {
        Some(e) => Err(e),
        None => picked_entry(outcome, entry_index),
    }
}

/// The last command after entry `entry_index` was run as part of another command: the run
/// of the whole text counts once it gave results.
pub open spec fn after_inner_entry_run(
    last: Option<CommandV>,
    content: Seq<char>,
    entry_index: usize,
    env: Option<Seq<(Seq<char>, Seq<char>)>>,
    outcome: RunOutcome,
) -> Option<CommandV> {
    if entry_check(content, entry_index) is None && file_results(outcome) is Ok {
        Some(CommandV::RunFile { content, env })
    } else {
        last
    }
}

/// What to run for entry `entry_index` of `content`: the whole text.
pub fn run_entry_job(content: &str, entry_index: usize, env: &Option<EnvVars>) -> (r: Result<RunJob, String>)
    ensures
        job_view(r) == (match entry_check(content@, entry_index) {
            Some(e) => Err(e),
            None => Ok(RunJobV { content: content@, env: env_view(*env) }),
        }),
{
    match check_entry(content, entry_index) {
        Some(e) => Err(e),
        None => Ok(job(content, env)),
    }
}

fn check_entry(content: &str, entry_index: usize) -> (r: Option<String>)
    ensures
        match r {
            Some(e) => entry_check(content@, entry_index) == Some(e@),
            None => entry_check(content@, entry_index) is None,
        },
{
    match parse_hurl_entries(content) {
        Err(e) => Some(e),
        Ok(es) => {
            if entry_index < es.len() {
                None
            } else {
                proof {
                    reveal_strlit("Entry index out of bounds");
                }
                Some("Entry index out of bounds".to_owned())
            }
        },
    }
}

fn first_error_of(rs: &Vec<ExecutionResult>) -> (r: Option<String>)
    ensures
        match r {
            Some(e) => first_error(rs.deep_view()) == Some(e@),
            None => first_error(rs.deep_view()) is None,
        },
{
    let ghost rv = rs.deep_view();
    let mut i: usize = 0;
    proof {
        assert(rv.skip(0) =~= rv);
    }
    while i < rs.len()
        invariant
            i <= rs@.len(),
            rv == rs.deep_view(),
            first_error(rv) == first_error(rv.skip(i as int)),
        decreases rs.len() - i,
    {
        proof {
            assert(rv[i as int] == rs@[i as int]@);
            assert(rv.skip(i as int)[0] == rv[i as int]);
            assert(rv.skip(i as int).drop_first() =~= rv.skip(i + 1));
        }
        match &rs[i].error {
            Some(e) => {
                return Some(e.clone());
            },
            None => {},
        }
        i = i + 1;
    }
    proof {
        assert(rv.skip(i as int) =~= seq![]);
    }
    None
}

/// Runs entry `entry_index` as part of another command (see `picked_entry`); a run of the
/// whole text that gave results is remembered.
fn run_entry_inner(
    history: &mut ExecutionHistory,
    content: &str,
    entry_index: usize,
    env: &Option<EnvVars>,
    outcome: &RunOutcome,
) -> (r: Result<ExecutionResult, String>)
    ensures
        result_view(r) == entry_run(content@, entry_index, *outcome),
        final(history)@ == after_inner_entry_run(old(history)@, content@, entry_index, env_view(*env), *outcome),
{
    if let Some(e) = check_entry(content, entry_index) {
        return Err(e);
    }
    let report = match outcome {
        Ok(report) => report,
        Err(e) => {
            return Err(prefixed("Failed to run Hurl file: ", e));
        },
    };
    let results = match results_of_report(report) {
        Ok(rs) => rs,
        Err(e) => {
            return Err(e);
        },
    };
    history.last = Some(LastExecutionCommand::RunFile { content: content.to_owned(), env: copy_env(env) });
    if entry_index < results.len() {
        convert_entry(&report.entries[entry_index], entry_index)
    } else {
        match first_error_of(&results) {
            Some(e) => Err(e),
            None => {
                proof {
                    reveal_strlit("Entry execution failed");
                }
                Err("Entry execution failed".to_owned())
            },
        }
    }
}

/// Runs entry `entry_index` of `content`, the runner having reported `outcome` for the
/// whole text: a text that does not parse or has no such entry fails as `entry_check`
/// says; otherwise the answer is `picked_entry`. The run of the whole text is remembered
/// once it gave results, and the command itself once it succeeded.
pub fn run_entry(
    history: &mut ExecutionHistory,
    content: &str,
    entry_index: usize,
    env: Option<EnvVars>,
    outcome: RunOutcome,
) -> (r: Result<ExecutionResult, String>)
    ensures
        result_view(r) == entry_run(content@, entry_index, outcome),
        final(history)@ == (if r is Ok {
            Some(CommandV::RunEntry { content: content@, entry_index, env: env_view(env) })
        } else {
            after_inner_entry_run(old(history)@, content@, entry_index, env_view(env), outcome)
        }),
{
    let result = run_entry_inner(history, content, entry_index, &env, &outcome);
    if result.is_ok() {
        history.last = Some(LastExecutionCommand::RunEntry { content: content.to_owned(), entry_index, env });
    }
    result
}

// ---------------------------------------------------------------------------------------
// Running the whole text, or part of its entries

/// The results of the entries from `entry_index` on.
pub open spec fn results_from(rs: Seq<ExecutionResultV>, entry_index: usize) -> Seq<ExecutionResultV>
    decreases rs.len(),
{
    if rs.len() == 0 {
        seq![]
    } else if rs.last().entry_index >= entry_index {
        results_from(rs.drop_last(), entry_index).push(rs.last())
    } else {
        results_from(rs.drop_last(), entry_index)
    }
}

/// The results of the entries up to `entry_index`, included.
pub open spec fn results_upto(rs: Seq<ExecutionResultV>, entry_index: usize) -> Seq<ExecutionResultV>
    decreases rs.len(),
{
    if rs.len() == 0 {
        seq![]
    } else if rs.last().entry_index <= entry_index {
        results_upto(rs.drop_last(), entry_index).push(rs.last())
    } else {
        results_upto(rs.drop_last(), entry_index)
    }
}

/// Keeps the results whose entry index is at least `entry_index` (`from` holds) or at
/// most `entry_index` (`from` does not hold), in order.
fn keep_results(rs: Vec<ExecutionResult>, entry_index: usize, from: bool) -> (r: Vec<ExecutionResult>)
    ensures
        r.deep_view() == (if from {
            results_from(rs.deep_view(), entry_index)
        } else {
            results_upto(rs.deep_view(), entry_index)
        }),
{
    let ghost rv = rs.deep_view();
    let mut rest = rs;
    let mut kept_rev: Vec<ExecutionResult> = Vec::new();
    while rest.len() > 0
        invariant
            rest.deep_view() == rv.take(rest@.len() as int),
            rest@.len() <= rv.len(),
            (if from { results_from(rv, entry_index) } else { results_upto(rv, entry_index) }) == (if from {
                results_from(rest.deep_view(), entry_index)
            } else {
                results_upto(rest.deep_view(), entry_index)
            }) + kept_rev.deep_view().reverse(),
        decreases rest.len(),
    {
        let ghost before = rest.deep_view();
        let ghost kept_before = kept_rev.deep_view();
        let item = rest.pop().unwrap();
        proof {
            assert(before.drop_last() =~= rest.deep_view());
            assert(before.last() == item@);
            assert(rest.deep_view() =~= rv.take(rest@.len() as int));
        }
        let keep = if from {
            item.entry_index >= entry_index
        } else {
            item.entry_index <= entry_index
        };
        if keep {
            kept_rev.push(item);
            proof {
                assert(kept_rev.deep_view() =~= kept_before.push(item@));
                assert(kept_rev.deep_view().reverse() =~= seq![item@] + kept_before.reverse());
            }
        }
    }
    let mut kept: Vec<ExecutionResult> = Vec::new();
    let ghost total = kept_rev.deep_view().reverse();
    while kept_rev.len() > 0
        invariant
            total == kept.deep_view() + kept_rev.deep_view().reverse(),
        decreases kept_rev.len(),
    {
        let ghost kb = kept.deep_view();
        let ghost rb = kept_rev.deep_view();
        let item = kept_rev.pop().unwrap();
        kept.push(item);
        proof {
            assert(rb.drop_last() =~= kept_rev.deep_view());
            assert(rb.reverse() =~= seq![item@] + kept_rev.deep_view().reverse());
            assert(kept.deep_view() =~= kb.push(item@));
        }
    }
    proof {
        assert(rest.deep_view() =~= seq![]);
        assert(kept.deep_view() =~= total);
    }
    kept
}

/// The answer to running the entries from `entry_index` on.
pub open spec fn to_end_run(outcome: RunOutcome, entry_index: usize) -> Result<Seq<ExecutionResultV>, Seq<char>> {
    match file_results(outcome) {
        Err(e) => Err(e),
        Ok(rs) => Ok(results_from(rs, entry_index)),
    }
}

/// The answer to running the entries up to `entry_index`.
pub open spec fn from_begin_run(outcome: RunOutcome, entry_index: usize) -> Result<Seq<ExecutionResultV>, Seq<char>> {
    match file_results(outcome) {
        Err(e) => Err(e),
        Ok(rs) => Ok(results_upto(rs, entry_index)),
    }
}

/// What to run for a command on the whole text: the text itself.
pub fn run_file_job(content: &str, env: &Option<EnvVars>) -> (r: RunJob)
    ensures
        r@ == (RunJobV { content: content@, env: env_view(*env) }),
{
    job(content, env)
}

/// Runs the entries of `content` from `entry_index` on: the results of the whole run (see
/// `file_results`) whose entry index is at least `entry_index`. The command is remembered
/// once it succeeded.
pub fn run_to_end(
    history: &mut ExecutionHistory,
    content: &str,
    entry_index: usize,
    env: Option<EnvVars>,
    outcome: RunOutcome,
) -> (r: Result<Vec<ExecutionResult>, String>)
    ensures
        results_view(r) == to_end_run(outcome, entry_index),
        final(history)@ == (if r is Ok {
            Some(CommandV::RunToEnd { content: content@, entry_index, env: env_view(env) })
        } else {
            old(history)@
        }),
{
    let results = match results_of(&outcome) {
        Ok(rs) => rs,
        Err(e) => {
            return Err(e);
        },
    };
    let kept = keep_results(results, entry_index, true);
    history.last = Some(LastExecutionCommand::RunToEnd { content: content.to_owned(), entry_index, env });
    Ok(kept)
}

/// Runs the entries of `content` up to `entry_index`: the results of the whole run whose
/// entry index is at most `entry_index`. The command is remembered once it succeeded.
pub fn run_from_begin(
    history: &mut ExecutionHistory,
    content: &str,
    entry_index: usize,
    env: Option<EnvVars>,
    outcome: RunOutcome,
) -> (r: Result<Vec<ExecutionResult>, String>)
    ensures
        results_view(r) == from_begin_run(outcome, entry_index),
        final(history)@ == (if r is Ok {
            Some(CommandV::RunFromBegin { content: content@, entry_index, env: env_view(env) })
        } else {
            old(history)@
        }),
{
    let results = match results_of(&outcome) {
        Ok(rs) => rs,
        Err(e) => {
            return Err(e);
        },
    };
    let kept = keep_results(results, entry_index, false);
    history.last = Some(LastExecutionCommand::RunFromBegin { content: content.to_owned(), entry_index, env });
    Ok(kept)
}

/// Runs the whole of `content`: the results of the run (see `file_results`). The command
/// is remembered once it succeeded.
pub fn run_file(
    history: &mut ExecutionHistory,
    content: &str,
    env: Option<EnvVars>,
    outcome: RunOutcome,
) -> (r: Result<Vec<ExecutionResult>, String>)
    ensures
        results_view(r) == file_results(outcome),
        final(history)@ == (if r is Ok {
            Some(CommandV::RunFile { content: content@, env: env_view(env) })
        } else {
            old(history)@
        }),
{
    let results = match results_of(&outcome) {
        Ok(rs) => rs,
        Err(e) => {
            return Err(e);
        },
    };
    history.last = Some(LastExecutionCommand::RunFile { content: content.to_owned(), env });
    Ok(results)
}

// ---------------------------------------------------------------------------------------
// Testing the whole text

/// How many asserts the results hold.
pub open spec fn total_assertions(rs: Seq<ExecutionResultV>) -> nat
    decreases rs.len(),
{
    if rs.len() == 0 {
        0
    } else {
        total_assertions(rs.drop_last()) + rs.last().assertions.len()
    }
}

/// How many of the asserts passed.
pub open spec fn passed_among(a: Seq<AssertionResultV>) -> nat
    decreases a.len(),
{
    if a.len() == 0 {
        0
    } else {
        passed_among(a.drop_last()) + (if a.last().passed { 1nat } else { 0nat })
    }
}

/// How many asserts of the results passed.
pub open spec fn passed_assertions(rs: Seq<ExecutionResultV>) -> nat
    decreases rs.len(),
{
    if rs.len() == 0 {
        0
    } else {
        passed_assertions(rs.drop_last()) + passed_among(rs.last().assertions)
    }
}

/// Some entry failed to run.
pub open spec fn has_execution_error(rs: Seq<ExecutionResultV>) -> bool {
    exists|i: int| 0 <= i < rs.len() && (#[trigger] rs[i]).error is Some
}

proof fn lemma_passed_among(a: Seq<AssertionResultV>)
    ensures
        passed_among(a) <= a.len(),
    decreases a.len(),
{
    if a.len() > 0 {
        lemma_passed_among(a.drop_last());
    }
}

proof fn lemma_passed_assertions(rs: Seq<ExecutionResultV>)
    ensures
        passed_assertions(rs) <= total_assertions(rs),
    decreases rs.len(),
{
    if rs.len() > 0 {
        lemma_passed_assertions(rs.drop_last());
        lemma_passed_among(rs.last().assertions);
    }
}

/// Entry `i` of the run was sent, and its assert `j` is an explicit one whose predicate was
/// evaluated and failed.
pub open spec fn failed_explicit_at(outcome: RunOutcome, i: int, j: int) -> bool {
    match outcome {
        Ok(r) => {
            &&& 0 <= i < r.entries@.len()
            &&& r.entries@[i].calls@.len() > 0
            &&& 0 <= j < r.entries@[i].asserts@.len()
            &&& match r.entries@[i].asserts@[j] {
                AssertReport::Explicit { predicate, .. } => predicate matches Some(Err(_)),
                _ => false,
            }
        },
        Err(_) => false,
    }
}

proof fn lemma_among_fails(a: Seq<AssertionResultV>, j: int)
    requires
        0 <= j < a.len(),
        !a[j].passed,
    ensures
        passed_among(a) < a.len(),
    decreases a.len(),
{
    if j == a.len() - 1 {
        lemma_passed_among(a.drop_last());
    } else {
        lemma_among_fails(a.drop_last(), j);
    }
}

proof fn lemma_results_fail(rs: Seq<ExecutionResultV>, i: int)
    requires
        0 <= i < rs.len(),
        passed_among(rs[i].assertions) < rs[i].assertions.len(),
    ensures
        passed_assertions(rs) < total_assertions(rs),
    decreases rs.len(),
{
    if i == rs.len() - 1 {
        lemma_passed_assertions(rs.drop_last());
    } else {
        lemma_results_fail(rs.drop_last(), i);
        lemma_passed_among(rs.last().assertions);
    }
}

/// A run in which a sent entry has an explicit assert whose predicate failed gives results
/// in which fewer asserts passed than there are: at least one assert failed.
pub proof fn lemma_failed_explicit_fails(outcome: RunOutcome, i: int, j: int)
    requires
        failed_explicit_at(outcome, i, j),
    ensures
        file_results(outcome) is Ok,
        passed_assertions(file_results(outcome)->Ok_0) < total_assertions(file_results(outcome)->Ok_0),
        file_results(outcome)->Ok_0[i].assertions.len() > j,
        !file_results(outcome)->Ok_0[i].assertions[j].passed,
{
    let r = outcome->Ok_0;
    let rs = file_results(outcome)->Ok_0;
    let e = r.entries@[i];
    assert(rs[i] == entry_result(e, i as usize));
    let a = rs[i].assertions;
    assert(a == e.asserts@.map_values(|x: AssertReport| assertion_result_of(x)));
    assert(!a[j].passed);
    lemma_among_fails(a, j);
    lemma_results_fail(rs, i);
}

/// The asserts that a run reported, when it gave results.
pub open spec fn outcome_assertions(outcome: RunOutcome) -> nat {
    match file_results(outcome) {
        Ok(rs) => total_assertions(rs),
        Err(_) => 0,
    }
}

/// Tests the whole of `content`: the results of the run (see `file_results`), how many
/// asserts they hold, how many passed and how many failed, and whether all passed with no
/// entry failing to run. Nothing is remembered.
pub fn test_file(content: &str, env: Option<EnvVars>, outcome: RunOutcome) -> (r: Result<TestFileResponse, String>)
    requires
        outcome_assertions(outcome) <= usize::MAX,
    ensures
        match r {
            Ok(t) => {
                &&& file_results(outcome) == Ok::<Seq<ExecutionResultV>, Seq<char>>(t.results.deep_view())
                &&& t.total_assertions == total_assertions(t.results.deep_view())
                &&& t.passed_assertions == passed_assertions(t.results.deep_view())
                &&& t.total_assertions == t.passed_assertions + t.failed_assertions
                &&& t.overall_pass == (t.failed_assertions == 0 && !has_execution_error(t.results.deep_view()))
                &&& (exists|i: int, j: int| failed_explicit_at(outcome, i, j)) ==> {
                    &&& t.failed_assertions >= 1
                    &&& !t.overall_pass
                }
            },
            Err(e) => file_results(outcome) == Err::<Seq<ExecutionResultV>, Seq<char>>(e@),
        },
{
    let results = match results_of(&outcome) {
        Ok(rs) => rs,
        Err(e) => {
            return Err(e);
        },
    };
    let ghost rv = results.deep_view();
    let mut total: usize = 0;
    let mut passed: usize = 0;
    let mut has_error = false;
    let mut i: usize = 0;
    while i < results.len()
        invariant
            i <= results@.len(),
            rv == results.deep_view(),
            total_assertions(rv) <= usize::MAX,
            total == total_assertions(rv.take(i as int)),
            passed == passed_assertions(rv.take(i as int)),
            has_error == has_execution_error(rv.take(i as int)),
        decreases results.len() - i,
    {
        let ghost pre = rv.take(i as int);
        let ghost cur = rv.take(i + 1);
        proof {
            assert(cur.drop_last() =~= pre);
            assert(cur.last() == rv[i as int]);
            assert(rv[i as int] == results@[i as int]@);
            lemma_total_prefix(rv, i + 1);
            lemma_passed_assertions(cur);
            lemma_passed_assertions(pre);
        }
        let asserts = &results[i].assertions;
        let mut j: usize = 0;
        while j < asserts.len()
            invariant
                j <= asserts@.len(),
                asserts.deep_view() == rv[i as int].assertions,
                total == total_assertions(pre) + j,
                passed == passed_assertions(pre) + passed_among(rv[i as int].assertions.take(j as int)),
                total_assertions(pre) + rv[i as int].assertions.len() <= usize::MAX,
                passed_assertions(pre) + passed_among(rv[i as int].assertions.take(j as int)) <= total,
            decreases asserts.len() - j,
        {
            proof {
                let a = rv[i as int].assertions;
                assert(a.take(j + 1).drop_last() =~= a.take(j as int));
                assert(a.take(j + 1).last() == asserts@[j as int]@);
            }
            total = total + 1;
            if asserts[j].passed {
                passed = passed + 1;
            }
            j = j + 1;
        }
        proof {
            assert(rv[i as int].assertions.take(j as int) =~= rv[i as int].assertions);
        }
        if results[i].error.is_some() {
            has_error = true;
        }
        proof {
            if has_error {
                if results[i as int].error.is_some() {
                    assert(cur[i as int].error is Some);
                } else {
                    let w = choose|k: int| 0 <= k < pre.len() && (#[trigger] pre[k]).error is Some;
                    assert(cur[w] == pre[w]);
                }
            } else {
                assert forall|k: int| 0 <= k < cur.len() implies !((#[trigger] cur[k]).error is Some) by {
                    if k < i {
                        assert(cur[k] == pre[k]);
                    }
                }
            }
        }
        i = i + 1;
    }
    proof {
        assert(rv.take(results@.len() as int) =~= rv);
        lemma_passed_assertions(rv);
        if exists|i: int, j: int| failed_explicit_at(outcome, i, j) {
            let (i, j) = choose|i: int, j: int| failed_explicit_at(outcome, i, j);
            lemma_failed_explicit_fails(outcome, i, j);
        }
    }
    let failed = total - passed;
    Ok(TestFileResponse {
        overall_pass: failed == 0 && !has_error,
        total_assertions: total,
        passed_assertions: passed,
        failed_assertions: failed,
        results,
    })
}

proof fn lemma_total_prefix(rs: Seq<ExecutionResultV>, n: int)
    requires
        0 <= n <= rs.len(),
    ensures
        total_assertions(rs.take(n)) <= total_assertions(rs),
    decreases rs.len(),
{
    if n < rs.len() {
        assert(rs.drop_last().take(n) =~= rs.take(n));
        lemma_total_prefix(rs.drop_last(), n);
    } else {
        assert(rs.take(n) =~= rs);
    }
}

// ---------------------------------------------------------------------------------------
// Running a selection of lines

/// The text of the selected lines (numbered from 1, both ends included, the end cut at
/// the end of the text), joined with `\n`; or why the selection cannot be run.
pub open spec fn selected_text(content: Seq<char>, selection: SelectionRange) -> Result<Seq<char>, Seq<char>> {
    let ls = lines(content);
    if ls.len() == 0 {
        Err("Cannot run selection on empty content"@)
    } else if selection.start_line == 0 || selection.end_line == 0 {
        Err("Selection lines are 1-based and must be greater than 0"@)
    } else if selection.start_line > selection.end_line {
        Err("Selection start_line must be <= end_line"@)
    } else {
        let start = selection.start_line - 1;
        let end = if selection.end_line <= ls.len() { selection.end_line as int } else { ls.len() as int };
        if start >= ls.len() {
            Err(
                "Selection start_line "@ + decimal(selection.start_line as nat) + " is outside file ("@
                    + decimal(ls.len()) + " lines)"@,
            )
        } else if start >= end {
            Err("Selection resolved to an empty range"@)
        } else {
            Ok(join_texts(ls.subrange(start, end), "\n"@))
        }
    }
}

/// A selection `start..end` of a non-empty text, numbered from 1 with `start <= end` and
/// `start` within the text, succeeds with exactly the lines from `start` to `end`, or to the
/// last line where `end` lies past it, joined with `\n`: `min(end, count) - start + 1`
/// lines, the first being line `start` and the last line `min(end, count)`.
pub proof fn lemma_selection_lines(content: Seq<char>, selection: SelectionRange)
    requires
        lines(content).len() > 0,
        1 <= selection.start_line <= selection.end_line,
        selection.start_line <= lines(content).len(),
    ensures
        ({
            let ls = lines(content);
            let last = if selection.end_line <= ls.len() { selection.end_line as int } else { ls.len() as int };
            let picked = ls.subrange(selection.start_line - 1, last);
            &&& selected_text(content, selection) == Ok::<Seq<char>, Seq<char>>(join_texts(picked, "\n"@))
            &&& picked.len() == last - selection.start_line + 1
            &&& picked[0] == ls[selection.start_line - 1]
            &&& picked.last() == ls[last - 1]
            &&& forall|k: int| 0 <= k < picked.len() ==> #[trigger] picked[k] == ls[selection.start_line - 1 + k]
        }),
{
}

/// A selection succeeds exactly when the text has lines, both ends are at least 1, the
/// start is not after the end and the start is within the text.
pub proof fn lemma_selection_ok(content: Seq<char>, selection: SelectionRange)
    ensures
        selected_text(content, selection) is Ok <==> (lines(content).len() > 0 && 1 <= selection.start_line
            <= selection.end_line && selection.start_line <= lines(content).len()),
{
}

/// A selection of one line within a non-empty text succeeds with that line's text alone.
pub proof fn lemma_selection_one_line(content: Seq<char>, line: u32)
    requires
        1 <= line <= lines(content).len(),
    ensures
        selected_text(content, SelectionRange { start_line: line, end_line: line })
            == Ok::<Seq<char>, Seq<char>>(lines(content)[line - 1]),
{
    let ls = lines(content);
    assert(ls.subrange(line - 1, line as int) =~= seq![ls[line - 1]]);
}

/// The answer for a selection that was run: the first entry that the runner reported.
pub open spec fn selection_outcome(outcome: RunOutcome) -> Result<ExecutionResultV, Seq<char>> {
    match outcome {
        Err(e) => Err("Failed to run selection: "@ + e@),
        Ok(report) => {
            if report.entries@.len() == 0 {
                Err("No entry found in Hurl result"@)
            } else {
                entry_outcome(report.entries@[0], 0)
            }
        },
    }
}

/// The answer to running a selection of the lines of `content`.
pub open spec fn selection_run(content: Seq<char>, selection: SelectionRange, outcome: RunOutcome) -> Result<ExecutionResultV, Seq<char>> {
    match selected_text(content, selection) {
        Err(e) => Err(e),
        Ok(_) => selection_outcome(outcome),
    }
}

fn error_string(lit: &str) -> (r: String)
    ensures
        r@ == lit@,
{
    lit.to_owned()
}

fn select_lines(content: &str, selection: SelectionRange) -> (r: Result<String, String>)
    ensures
        match r {
            Ok(t) => selected_text(content@, selection) == Ok::<Seq<char>, Seq<char>>(t@),
            Err(e) => selected_text(content@, selection) == Err::<Seq<char>, Seq<char>>(e@),
        },
{
    let ls = lines_of(content);
    let ghost lv = char_views(ls@);
    if ls.len() == 0 {
        proof { reveal_strlit("Cannot run selection on empty content"); }
        return Err(error_string("Cannot run selection on empty content"));
    }
    if selection.start_line == 0 || selection.end_line == 0 {
        proof { reveal_strlit("Selection lines are 1-based and must be greater than 0"); }
        return Err(error_string("Selection lines are 1-based and must be greater than 0"));
    }
    if selection.start_line > selection.end_line {
        proof { reveal_strlit("Selection start_line must be <= end_line"); }
        return Err(error_string("Selection start_line must be <= end_line"));
    }
    let start = (selection.start_line - 1) as usize;
    let end = if (selection.end_line as usize) <= ls.len() { selection.end_line as usize } else { ls.len() };
    if start >= ls.len() {
        let mut out: Vec<char> = Vec::new();
        push_str(&mut out, "Selection start_line ");
        push_decimal(&mut out, selection.start_line as u64);
        push_str(&mut out, " is outside file (");
        push_decimal(&mut out, ls.len() as u64);
        push_str(&mut out, " lines)");
        proof {
            assert(out@ =~= "Selection start_line "@ + decimal(selection.start_line as nat) + " is outside file ("@
                + decimal(lv.len()) + " lines)"@);
        }
        return Err(string_from_chars(out.as_slice()));
    }
    if start >= end {
        proof { reveal_strlit("Selection resolved to an empty range"); }
        return Err(error_string("Selection resolved to an empty range"));
    }
    let mut picked: Vec<Vec<char>> = Vec::new();
    let mut i: usize = start;
    while i < end
        invariant
            start <= i <= end <= ls@.len(),
            lv == char_views(ls@),
            picked@.len() == i - start,
            forall|k: int| 0 <= k < i - start ==> #[trigger] picked@[k]@ == ls@[start + k]@,
        decreases end - i,
    {
        picked.push(ls[i].clone());
        i = i + 1;
    }
    proof {
        assert(char_views(picked@) =~= lv.subrange(start as int, end as int));
    }
    Ok(joined_lines(&picked))
}

/// What to run for a selection of the lines of `content`: the selected text.
pub fn run_selection_job(content: &str, selection: SelectionRange, env: &Option<EnvVars>) -> (r: Result<RunJob, String>)
    ensures
        job_view(r) == (match selected_text(content@, selection) {
            Err(e) => Err(e),
            Ok(t) => Ok(RunJobV { content: t, env: env_view(*env) }),
        }),
{
    match select_lines(content, selection) {
        Err(e) => Err(e),
        Ok(text) => Ok(job(text.as_str(), env)),
    }
}

fn run_selection_inner(content: &str, selection: SelectionRange, outcome: &RunOutcome) -> (r: Result<ExecutionResult, String>)
    ensures
        result_view(r) == selection_run(content@, selection, *outcome),
{
    if let Err(e) = select_lines(content, selection) {
        return Err(e);
    }
    match outcome {
        Err(e) => Err(prefixed("Failed to run selection: ", e)),
        Ok(report) => {
            if report.entries.len() == 0 {
                proof { reveal_strlit("No entry found in Hurl result"); }
                Err(error_string("No entry found in Hurl result"))
            } else {
                convert_entry(&report.entries[0], 0)
            }
        },
    }
}

/// Runs a selection of the lines of `content`, the runner having reported `outcome` for
/// the selected text: a selection that cannot be run fails as `selected_text` says;
/// otherwise the answer is the first entry reported (see `selection_outcome`). The
/// command is remembered once it succeeded.
pub fn run_selection(
    history: &mut ExecutionHistory,
    content: &str,
    selection: SelectionRange,
    env: Option<EnvVars>,
    outcome: RunOutcome,
) -> (r: Result<ExecutionResult, String>)
    ensures
        result_view(r) == selection_run(content@, selection, outcome),
        final(history)@ == (if r is Ok {
            Some(CommandV::RunSelection { content: content@, selection, env: env_view(env) })
        } else {
            old(history)@
        }),
{
    let result = run_selection_inner(content, selection, &outcome);
    if result.is_ok() {
        history.last = Some(LastExecutionCommand::RunSelection { content: content.to_owned(), selection, env });
    }
    result
}

// ---------------------------------------------------------------------------------------
// Running the last command again

/// The last of the results, or `NAME produced no execution results`.
pub open spec fn last_or_error(rs: Seq<ExecutionResultV>, command_name: Seq<char>) -> Result<ExecutionResultV, Seq<char>> {
    if rs.len() == 0 {
        Err(command_name + " produced no execution results"@)
    } else {
        Ok(rs.last())
    }
}

/// The last of `results`, or `NAME produced no execution results`.
pub fn last_result_or_error(results: Vec<ExecutionResult>, command_name: &str) -> (r: Result<ExecutionResult, String>)
    ensures
        result_view(r) == last_or_error(results.deep_view(), command_name@),
{
    let mut results = results;
    let ghost rv = results.deep_view();
    match results.pop() {
        Some(last) => {
            proof {
                assert(rv.last() == last@);
            }
            Ok(last)
        },
        None => {
            let mut out: Vec<char> = Vec::new();
            push_str(&mut out, command_name);
            push_str(&mut out, " produced no execution results");
            Err(string_from_chars(out.as_slice()))
        },
    }
}

/// The error when nothing ran before.
pub open spec fn no_previous_run() -> Seq<char> {
    "No previous run available to rerun"@
}

/// What to run again for the last command: what that command ran.
pub open spec fn rerun_job_of(last: Option<CommandV>) -> Result<RunJobV, Seq<char>> {
    match last {
        None => Err(no_previous_run()),
        Some(CommandV::RunEntry { content, entry_index, env }) => match entry_check(content, entry_index) {
            Some(e) => Err(e),
            None => Ok(RunJobV { content, env }),
        },
        Some(CommandV::RunSelection { content, selection, env }) => match selected_text(content, selection) {
            Err(e) => Err(e),
            Ok(t) => Ok(RunJobV { content: t, env }),
        },
        Some(CommandV::RunToEnd { content, env, .. }) => Ok(RunJobV { content, env }),
        Some(CommandV::RunFromBegin { content, env, .. }) => Ok(RunJobV { content, env }),
        Some(CommandV::RunFile { content, env }) => Ok(RunJobV { content, env }),
    }
}

/// The answer to running the last command again, the runner having reported `outcome`:
/// one entry's command answers as it did; a command on several entries answers with the
/// last of its results.
pub open spec fn rerun_answer(last: Option<CommandV>, outcome: RunOutcome) -> Result<ExecutionResultV, Seq<char>> {
    match last {
        None => Err(no_previous_run()),
        Some(CommandV::RunEntry { content, entry_index, env }) => entry_run(content, entry_index, outcome),
        Some(CommandV::RunSelection { content, selection, env }) => selection_run(content, selection, outcome),
        Some(CommandV::RunToEnd { content, entry_index, env }) => match to_end_run(outcome, entry_index) {
            Err(e) => Err(e),
            Ok(rs) => last_or_error(rs, "run-to-end"@),
        },
        Some(CommandV::RunFromBegin { content, entry_index, env }) => match from_begin_run(outcome, entry_index) {
            Err(e) => Err(e),
            Ok(rs) => last_or_error(rs, "run-from-begin"@),
        },
        Some(CommandV::RunFile { content, env }) => match file_results(outcome) {
            Err(e) => Err(e),
            Ok(rs) => last_or_error(rs, "run-file"@),
        },
    }
}

/// The last command after it ran again: running an entry again leaves the run of the
/// whole text as the last command (as running an entry inside another command does).
pub open spec fn after_rerun(last: Option<CommandV>, outcome: RunOutcome) -> Option<CommandV> {
    match last {
        Some(CommandV::RunEntry { content, entry_index, env }) => after_inner_entry_run(last, content, entry_index, env, outcome),
        _ => last,
    }
}

fn copy_command(c: &LastExecutionCommand) -> (r: LastExecutionCommand)
    ensures
        r@ == c@,
{
    match c {
        LastExecutionCommand::RunEntry { content, entry_index, env } => LastExecutionCommand::RunEntry {
            content: content.clone(),
            entry_index: *entry_index,
            env: copy_env(env),
        },
        LastExecutionCommand::RunToEnd { content, entry_index, env } => LastExecutionCommand::RunToEnd {
            content: content.clone(),
            entry_index: *entry_index,
            env: copy_env(env),
        },
        LastExecutionCommand::RunFromBegin { content, entry_index, env } => LastExecutionCommand::RunFromBegin {
            content: content.clone(),
            entry_index: *entry_index,
            env: copy_env(env),
        },
        LastExecutionCommand::RunSelection { content, selection, env } => LastExecutionCommand::RunSelection {
            content: content.clone(),
            selection: *selection,
            env: copy_env(env),
        },
        LastExecutionCommand::RunFile { content, env } => LastExecutionCommand::RunFile {
            content: content.clone(),
            env: copy_env(env),
        },
    }
}

/// What to run for running the last command again (see `rerun_job_of`).
pub fn rerun_last_job(history: &ExecutionHistory) -> (r: Result<RunJob, String>)
    ensures
        job_view(r) == rerun_job_of(history@),
{
    match &history.last {
        None => {
            proof { reveal_strlit("No previous run available to rerun"); }
            Err(error_string("No previous run available to rerun"))
        },
        Some(LastExecutionCommand::RunEntry { content, entry_index, env }) => run_entry_job(content.as_str(), *entry_index, env),
        Some(LastExecutionCommand::RunSelection { content, selection, env }) => run_selection_job(content.as_str(), *selection, env),
        Some(LastExecutionCommand::RunToEnd { content, env, .. }) => Ok(job(content.as_str(), env)),
        Some(LastExecutionCommand::RunFromBegin { content, env, .. }) => Ok(job(content.as_str(), env)),
        Some(LastExecutionCommand::RunFile { content, env }) => Ok(job(content.as_str(), env)),
    }
}

/// Runs the last command again, the runner having reported `outcome` for what
/// `rerun_last_job` gave to run (see `rerun_answer` and `after_rerun`).
pub fn rerun_last(history: &mut ExecutionHistory, outcome: RunOutcome) -> (r: Result<ExecutionResult, String>)
    ensures
        result_view(r) == rerun_answer(old(history)@, outcome),
        final(history)@ == after_rerun(old(history)@, outcome),
{
    let command = match &history.last {
        None => {
            proof { reveal_strlit("No previous run available to rerun"); }
            return Err(error_string("No previous run available to rerun"));
        },
        Some(c) => copy_command(c),
    };
    match command {
        LastExecutionCommand::RunEntry { content, entry_index, env } => {
            run_entry_inner(history, content.as_str(), entry_index, &env, &outcome)
        },
        LastExecutionCommand::RunSelection { content, selection, env } => {
            run_selection_inner(content.as_str(), selection, &outcome)
        },
        LastExecutionCommand::RunToEnd { content, entry_index, env } => {
            let results = match results_of(&outcome) {
                Ok(rs) => rs,
                Err(e) => {
                    return Err(e);
                },
            };
            last_result_or_error(keep_results(results, entry_index, true), "run-to-end")
        },
        LastExecutionCommand::RunFromBegin { content, entry_index, env } => {
            let results = match results_of(&outcome) {
                Ok(rs) => rs,
                Err(e) => {
                    return Err(e);
                },
            };
            last_result_or_error(keep_results(results, entry_index, false), "run-from-begin")
        },
        LastExecutionCommand::RunFile { content, env } => {
            let results = match results_of(&outcome) {
                Ok(rs) => rs,
                Err(e) => {
                    return Err(e);
                },
            };
            last_result_or_error(results, "run-file")
        },
    }
}

// ---------------------------------------------------------------------------------------
// Building asserts from a response, and cancelling

/// The text with the asserts suggested by the response of entry `entry_index` written
/// into that entry, and how many were written.
pub open spec fn built_assertions(content: Seq<char>, entry_index: usize, outcome: RunOutcome) -> Result<(Seq<char>, nat), Seq<char>> {
    match entry_run(content, entry_index, outcome) {
        Err(e) => Err(e),
        Ok(r) => injected_into_entry(content, entry_index, json_assertions(parsed_json(r.body))),
    }
}

/// Runs entry `entry_index` of `content` (as inside another command, see `run_entry_inner`)
/// and writes the JSONPath asserts suggested by its response body into that entry.
pub fn build_assertions_for_entry(
    history: &mut ExecutionHistory,
    content: &str,
    entry_index: usize,
    env: Option<EnvVars>,
    outcome: RunOutcome,
) -> (r: Result<BuildAssertionsResponse, String>)
    ensures
        match r {
            Ok(b) => built_assertions(content@, entry_index, outcome) == Ok::<(Seq<char>, nat), Seq<char>>((b.content@, b.assertions_added as nat)),
            Err(e) => built_assertions(content@, entry_index, outcome) == Err::<(Seq<char>, nat), Seq<char>>(e@),
        },
        final(history)@ == after_inner_entry_run(old(history)@, content@, entry_index, env_view(env), outcome),
{
    let result = match run_entry_inner(history, content, entry_index, &env, &outcome) {
        Ok(r) => r,
        Err(e) => {
            return Err(e);
        },
    };
    let assertions = generate_json_assertions(result.body.as_str());
    match inject_assertions_into_entry(content, entry_index, &assertions) {
        Ok((updated, added)) => Ok(BuildAssertionsResponse { content: updated, assertions_added: added }),
        Err(e) => Err(e),
    }
}

/// Asks for a run to be cancelled: the request is acknowledged.
pub fn cancel_execution(run_id: &str) -> (r: Result<CancelResponse, String>)
    ensures
        r matches Ok(c) && c.success && c.message@ == "Cancellation requested for run ID: "@ + run_id@,
{
    let mut out: Vec<char> = Vec::new();
    push_str(&mut out, "Cancellation requested for run ID: ");
    let id = chars_of(run_id);
    push_all(&mut out, id.as_slice());
    Ok(CancelResponse { success: true, message: string_from_chars(out.as_slice()) })
}

/// Running a command again runs what it ran and answers as it answered, given the same
/// report of the runner: after an entry or a selection ran, the text to run again is the
/// one it ran; for every command the answer is that of the command (the last of its
/// results for a command on several entries).
pub proof fn lemma_rerun_repeats(
    content: Seq<char>,
    entry_index: usize,
    selection: SelectionRange,
    env: Option<Seq<(Seq<char>, Seq<char>)>>,
    outcome: RunOutcome,
)
    ensures
        entry_run(content, entry_index, outcome) is Ok ==> rerun_job_of(
            Some(CommandV::RunEntry { content, entry_index, env }),
        ) == Ok::<RunJobV, Seq<char>>(RunJobV { content, env }),
        rerun_answer(Some(CommandV::RunEntry { content, entry_index, env }), outcome) == entry_run(
            content,
            entry_index,
            outcome,
        ),
        selection_run(content, selection, outcome) is Ok ==> rerun_job_of(
            Some(CommandV::RunSelection { content, selection, env }),
        ) == Ok::<RunJobV, Seq<char>>(RunJobV { content: selected_text(content, selection)->Ok_0, env }),
        rerun_answer(Some(CommandV::RunSelection { content, selection, env }), outcome) == selection_run(
            content,
            selection,
            outcome,
        ),
        rerun_job_of(Some(CommandV::RunFile { content, env })) == Ok::<RunJobV, Seq<char>>(RunJobV { content, env }),
        rerun_answer(Some(CommandV::RunFile { content, env }), outcome) == (match file_results(outcome) {
            Err(e) => Err(e),
            Ok(rs) => last_or_error(rs, "run-file"@),
        }),
        rerun_answer(Some(CommandV::RunToEnd { content, entry_index, env }), outcome) == (match to_end_run(
            outcome,
            entry_index,
        ) {
            Err(e) => Err(e),
            Ok(rs) => last_or_error(rs, "run-to-end"@),
        }),
{
}

/// A run of the whole text answers one result per entry, the `i`-th for entry `i`.
pub proof fn lemma_file_results_indexed(outcome: RunOutcome)
    ensures
        file_results(outcome) matches Ok(rs) ==> rs.len() == outcome->Ok_0.entries@.len() && forall|i: int|
            0 <= i < rs.len() ==> (#[trigger] rs[i]).entry_index == i as usize,
{
    if let Ok(report) = outcome {
        if report.entries@.len() > 0 {
            assert forall|i: int| 0 <= i < report.entries@.len() implies (#[trigger] report_results(report)->Ok_0[i]).entry_index == i as usize by {
                let e = report.entries@[i];
                match entry_outcome(e, i as usize) {
                    Ok(r) => {},
                    Err(m) => {},
                }
            }
        }
    }
}

} // verus!
