//! Reading variables from the text of an env file: `KEY=VALUE` lines, blank lines and
//! `#` comments skipped, an `export ` prefix allowed, values unquoted.

use vstd::prelude::*;
use crate::models::{EnvVars, pair_views};
use crate::num::{decimal, push_decimal};
use crate::pairs::{distinct_keys, insert_pair, lemma_map_insert_distinct, map_insert};
use crate::text::{
    char_views, find, find_char, lemma_find_from, lines, lines_of, push_str, starts_with, starts_with_str,
    string_from_chars, trim, trim_chars,
};

verus! {

/// `v` without the quotes around it, where it is quoted with `"` or `'` at both ends.
pub open spec fn unquoted(v: Seq<char>) -> Seq<char> {
    if v.len() >= 2 && ((v[0] == '"' && v.last() == '"') || (v[0] == '\'' && v.last() == '\'')) {
        v.subrange(1, v.len() - 1)
    } else {
        v
    }
}

/// `value` without the quotes around it (see `unquoted`).
pub fn unquote(value: &[char]) -> (r: String)
    ensures
        r@ == unquoted(value@),
{
    let n = value.len();
    if n >= 2 {
        let first = value[0];
        let last = value[n - 1];
        if (first == '"' && last == '"') || (first == '\'' && last == '\'') {
            return string_from_chars(&value[1..n - 1]);
        }
    }
    string_from_chars(value)
}

/// What one line of an env file holds.
pub enum EnvLine {
    /// A blank line or a comment.
    Skip,
    /// A line without `=`.
    NoEquals,
    /// A line whose key is blank.
    EmptyKey,
    /// A variable.
    Pair(Seq<char>, Seq<char>),
}

/// The line with its `export ` prefix taken away, if it has one.
pub open spec fn without_export(line: Seq<char>) -> Seq<char> {
    if starts_with(line, "export "@) {
        line.skip(7)
    } else {
        line
    }
}

/// What a line of an env file holds: trimmed, a blank line or one starting with `#` is
/// skipped; then, without an `export ` prefix, the key is the trimmed text before the
/// first `=` and the value the trimmed, unquoted text after it.
pub open spec fn env_line(raw: Seq<char>) -> EnvLine {
    let line = trim(raw);
    if line.len() == 0 || line[0] == '#' {
        EnvLine::Skip
    } else {
        let body = without_export(line);
        match find(body, '=') {
            None => EnvLine::NoEquals,
            Some(i) => {
                let key = trim(body.take(i));
                if key.len() == 0 {
                    EnvLine::EmptyKey
                } else {
                    EnvLine::Pair(key, unquoted(trim(body.skip(i + 1))))
                }
            },
        }
    }
}

/// The error for line `n` (from 1).
pub open spec fn env_error(n: nat, what: Seq<char>) -> Seq<char> {
    "Invalid env file format at line "@ + decimal(n) + ": "@ + what
}

/// The variables of the first `n` lines, or the error of the first bad line among them.
/// A later line of a key replaces an earlier one.
pub open spec fn env_upto(ls: Seq<Seq<char>>, n: nat) -> Result<Seq<(Seq<char>, Seq<char>)>, Seq<char>>
    decreases n,
{
    if n == 0 || n > ls.len() {
        Ok(seq![])
    } else {
        match env_upto(ls, (n - 1) as nat) {
            Err(e) => Err(e),
            Ok(m) => match env_line(ls[n - 1]) {
                EnvLine::Skip => Ok(m),
                EnvLine::NoEquals => Err(env_error(n, "expected KEY=VALUE"@)),
                EnvLine::EmptyKey => Err(env_error(n, "empty key"@)),
                EnvLine::Pair(k, v) => Ok(map_insert(m, k, v)),
            },
        }
    }
}

/// The variables of an env file's text.
pub open spec fn env_vars(content: Seq<char>) -> Result<Seq<(Seq<char>, Seq<char>)>, Seq<char>> {
    env_upto(lines(content), lines(content).len())
}

pub open spec fn env_result_view(r: Result<EnvVars, String>) -> Result<Seq<(Seq<char>, Seq<char>)>, Seq<char>> {
    match r {
        Ok(v) => Ok(pair_views(v@)),
        Err(e) => Err(e@),
    }
}

fn line_error(n: usize, what: &str) -> (r: String)
    ensures
        r@ == env_error(n as nat, what@),
{
    let mut out: Vec<char> = Vec::new();
    push_str(&mut out, "Invalid env file format at line ");
    push_decimal(&mut out, n as u64);
    push_str(&mut out, ": ");
    push_str(&mut out, what);
    proof {
        assert(out@ =~= env_error(n as nat, what@));
    }
    string_from_chars(out.as_slice())
}

/// The variables of the text of an env file (see `env_vars`): each distinct key once, with
/// the value of its last line.
pub fn parse_env_content(content: &str) -> (r: Result<EnvVars, String>)
    ensures
        env_result_view(r) == env_vars(content@),
{
    let ls = lines_of(content);
    let ghost lv = char_views(ls@);
    let mut vars: EnvVars = Vec::new();
    let mut idx: usize = 0;
    proof {
        assert(pair_views(vars@) =~= seq![]);
    }
    while idx < ls.len()
        invariant
            idx <= ls@.len(),
            lv == char_views(ls@),
            lv == lines(content@),
            env_upto(lv, idx as nat) == Ok::<Seq<(Seq<char>, Seq<char>)>, Seq<char>>(pair_views(vars@)),
        decreases ls.len() - idx,
    {
        proof {
            assert(lv[idx as int] == ls@[idx as int]@);
        }
        let line = trim_chars(ls[idx].as_slice());
        if line.len() == 0 || line[0] == '#' {
            idx = idx + 1;
            continue;
        }
        let body: &[char] = if starts_with_str(line, "export ") {
            proof {
                reveal_strlit("export ");
            }
            let n = line.len();
            &line[7..n]
        } else {
            line
        };
        assert(body@ == without_export(line@));
        match find_char(body, '=') {
            None => {
                let e = line_error(idx + 1, "expected KEY=VALUE");
                proof {
                    lemma_env_error_stays(lv, (idx + 1) as nat, lv.len());
                }
                return Err(e);
            },
            Some(i) => {
                proof {
                    lemma_find_from(body@, '=', 0);
                }
                let n = body.len();
                let key = trim_chars(&body[0..i]);
                if key.len() == 0 {
                    let e = line_error(idx + 1, "empty key");
                    proof {
                        assert(body@.subrange(0, i as int) =~= body@.take(i as int));
                        lemma_env_error_stays(lv, (idx + 1) as nat, lv.len());
                    }
                    return Err(e);
                }
                let value_raw = trim_chars(&body[i + 1..n]);
                proof {
                    assert(body@.subrange(0, i as int) =~= body@.take(i as int));
                    assert(body@.subrange(i + 1, n as int) =~= body@.skip(i + 1));
                }
                let value = unquote(value_raw);
                let key_text = string_from_chars(key);
                insert_pair(&mut vars, key_text, value);
            },
        }
        idx = idx + 1;
    }
    Ok(vars)
}

/// Once a line is bad, the error stays the answer for any longer part of the text.
pub proof fn lemma_env_error_stays(ls: Seq<Seq<char>>, n: nat, m: nat)
    requires
        n <= m <= ls.len(),
        env_upto(ls, n) is Err,
    ensures
        env_upto(ls, m) == env_upto(ls, n),
    decreases m - n,
{
    if m > n {
        lemma_env_error_stays(ls, n, (m - 1) as nat);
    }
}

/// The variables that an env file gives have distinct keys.
pub proof fn lemma_env_vars_distinct(ls: Seq<Seq<char>>, n: nat)
    ensures
        env_upto(ls, n) matches Ok(m) ==> distinct_keys(m),
    decreases n,
{
    if n > 0 && n <= ls.len() {
        lemma_env_vars_distinct(ls, (n - 1) as nat);
        if let Ok(m) = env_upto(ls, (n - 1) as nat) {
            if let EnvLine::Pair(k, v) = env_line(ls[n - 1]) {
                lemma_map_insert_distinct(m, k, v);
            }
        }
    }
}

} // verus!
