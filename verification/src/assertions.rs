//! JSONPath asserts suggested from a JSON response body, and writing them into the
//! `[Asserts]` section of an entry of a Hurl text.

use vstd::prelude::*;
use crate::builder::{eq_ignore_case_lit, is_simple_key, is_simple_json_key};
use crate::json::{JsonValue, parse_json, parsed_json};
use crate::parser::{closing_quote, closing_quote_from, quoted};
use crate::entries::{hurl_entries, parse_hurl_entries, parsed_hurl};
use crate::models::{EntryInfo, EntryInfoV};
use crate::num::{decimal, eq_ignore_ascii_case, push_decimal};
use crate::text::{
    char_views, chars_of, eq_chars, join_texts, lines, lines_of, push_all, push_str, starts_with,
    starts_with_str, string_from_chars, string_views, to_uppercase, trim, trim_chars, trim_start,
    trim_start_chars, upper_text, strings_of, joined_lines,
};

verus! {

/// The most asserts that a walk of a JSON value starts new work at.
pub const MAX_JSON_ASSERTIONS: usize = 40;

/// The characters of `c` inside a quoted Hurl string.
pub open spec fn escape_char(c: char) -> Seq<char> {
    if c == '\\' {
        seq!['\\', '\\']
    } else if c == '"' {
        seq!['\\', '"']
    } else {
        seq![c]
    }
}

/// `s` with `\` and `"` escaped by a `\`.
pub open spec fn escape_hurl(s: Seq<char>) -> Seq<char>
    decreases s.len(),
{
    if s.len() == 0 {
        seq![]
    } else {
        escape_hurl(s.drop_last()) + escape_char(s.last())
    }
}

/// Appends `s`, escaped for a quoted Hurl string, to `out`.
fn push_escaped(out: &mut Vec<char>, s: &[char])
    ensures
        final(out)@ == old(out)@ + escape_hurl(s@),
{
    let ghost start = out@;
    let mut i: usize = 0;
    while i < s.len()
        invariant
            i <= s@.len(),
            out@ == start + escape_hurl(s@.take(i as int)),
        decreases s.len() - i,
    {
        let c = s[i];
        if c == '\\' {
            out.push('\\');
            out.push('\\');
        } else if c == '"' {
            out.push('\\');
            out.push('"');
        } else {
            out.push(c);
        }
        proof {
            assert(s@.take(i + 1).drop_last() =~= s@.take(i as int));
            assert(out@ =~= start + escape_hurl(s@.take(i + 1)));
        }
        i = i + 1;
    }
    proof {
        assert(s@.take(s@.len() as int) =~= s@);
    }
}

/// `value` with `\` and `"` escaped by a `\`, as inside a quoted Hurl string.
pub fn escape_hurl_string(value: &str) -> (r: String)
    ensures
        r@ == escape_hurl(value@),
{
    let v = chars_of(value);
    let mut out: Vec<char> = Vec::new();
    push_escaped(&mut out, v.as_slice());
    proof {
        assert(out@ =~= escape_hurl(value@));
    }
    string_from_chars(out.as_slice())
}

proof fn lemma_escape_concat(a: Seq<char>, b: Seq<char>)
    ensures
        escape_hurl(a + b) == escape_hurl(a) + escape_hurl(b),
    decreases b.len(),
{
    if b.len() == 0 {
        assert(a + b =~= a);
        assert(escape_hurl(a) + escape_hurl(b) =~= escape_hurl(a));
    } else {
        assert((a + b).drop_last() =~= a + b.drop_last());
        lemma_escape_concat(a, b.drop_last());
        assert(escape_hurl(a) + escape_hurl(b) =~= escape_hurl(a) + escape_hurl(b.drop_last()) + escape_char(b.last()));
    }
}

proof fn lemma_quote_after_escape(pre: Seq<char>, s: Seq<char>, rest: Seq<char>)
    ensures
        closing_quote_from(pre + escape_hurl(s) + seq!['"'] + rest, pre.len() as int)
            == Some((pre.len() + escape_hurl(s).len()) as int),
    decreases s.len(),
{
    let w = pre + escape_hurl(s) + seq!['"'] + rest;
    let i = pre.len() as int;
    if s.len() == 0 {
        assert(w[i] == '"');
    } else {
        let c = s[0];
        let s1 = s.drop_first();
        assert(seq![c] + s1 =~= s);
        lemma_escape_concat(seq![c], s1);
        let one = seq![c];
        assert(one.drop_last() =~= Seq::<char>::empty());
        assert(one.last() == c);
        assert(escape_hurl(one) == escape_hurl(one.drop_last()) + escape_char(c));
        assert(escape_hurl(one) =~= escape_char(c));
        let pre1 = pre + escape_char(c);
        assert(w =~= pre1 + escape_hurl(s1) + seq!['"'] + rest);
        lemma_quote_after_escape(pre1, s1, rest);
        assert(w[i] == escape_char(c)[0]);
    }
}

/// Text escaped for a quoted Hurl string and closed with `"` reads back whole as that
/// quoted string: no `"` inside it ends the string early.
pub proof fn lemma_escaped_reads_back(s: Seq<char>, rest: Seq<char>)
    ensures
        quoted(seq!['"'] + escape_hurl(s) + seq!['"'] + rest) == Some(escape_hurl(s)),
{
    let w = seq!['"'] + escape_hurl(s) + seq!['"'] + rest;
    lemma_quote_after_escape(seq!['"'], s, rest);
    assert(closing_quote(w) == Some(1 + escape_hurl(s).len() as int));
    assert(w.subrange(1, 1 + escape_hurl(s).len() as int) =~= escape_hurl(s));
}

/// The JSON path of member `key` of the value at `base`: `base.key` for a simple key,
/// else `base["key"]` with the key escaped.
pub open spec fn member_path(base: Seq<char>, key: Seq<char>) -> Seq<char> {
    if is_simple_key(key) {
        base + seq!['.'] + key
    } else {
        base + "[\""@ + escape_hurl(key) + "\"]"@
    }
}

fn append_jsonpath(base: &[char], key: &[char]) -> (r: Vec<char>)
    ensures
        r@ == member_path(base@, key@),
{
    let mut out = vstd::slice::slice_to_vec(base);
    if is_simple_json_key(key) {
        out.push('.');
        push_all(&mut out, key);
    } else {
        push_str(&mut out, "[\"");
        push_escaped(&mut out, key);
        push_str(&mut out, "\"]");
    }
    proof {
        assert(out@ =~= member_path(base@, key@));
    }
    out
}

/// `jsonpath "PATH"`.
pub open spec fn jsonpath_of(path: Seq<char>) -> Seq<char> {
    "jsonpath \""@ + path + "\""@
}

/// The assert that a scalar JSON value at `path` gives; none for an array or an object.
pub open spec fn scalar_assert(v: JsonValue, path: Seq<char>) -> Seq<char> {
    match v {
        JsonValue::Null => jsonpath_of(path) + " == null"@,
        JsonValue::Bool(b) => jsonpath_of(path) + (if b { " == true"@ } else { " == false"@ }),
        JsonValue::Number { text, .. } => jsonpath_of(path) + " == "@ + text@,
        JsonValue::Str(s) => jsonpath_of(path) + " == \""@ + escape_hurl(s@) + "\""@,
        _ => seq![],
    }
}

/// `line` added at the end unless it is there already.
pub open spec fn push_unique_spec(a: Seq<Seq<char>>, line: Seq<char>) -> Seq<Seq<char>> {
    if a.contains(line) {
        a
    } else {
        a.push(line)
    }
}

/// The asserts collected from `v` at `path`, `depth` levels down, after those of `a`: a
/// scalar gives its value; an array its count and its existence, then (above depth 2) the
/// asserts of its first item; an object other than the root its existence, then (above
/// depth 2) those of each member in turn until 40 asserts are collected. Nothing starts
/// once 40 are collected, and an assert that is there already is not added again.
pub open spec fn collect_asserts(v: JsonValue, path: Seq<char>, depth: nat, a: Seq<Seq<char>>) -> Seq<Seq<char>>
    decreases v, 0nat,
{
    if a.len() >= MAX_JSON_ASSERTIONS {
        a
    } else {
        match v {
            JsonValue::Array(items) => {
                let a1 = push_unique_spec(
                    push_unique_spec(a, jsonpath_of(path) + " count == "@ + decimal(items@.len())),
                    jsonpath_of(path) + " exists"@,
                );
                if depth < 2 && items@.len() > 0 {
                    collect_asserts(items@[0], path + "[0]"@, depth + 1, a1)
                } else {
                    a1
                }
            },
            JsonValue::Object(members) => {
                let a1 = if path == "$"@ {
                    a
                } else {
                    push_unique_spec(a, jsonpath_of(path) + " exists"@)
                };
                if depth < 2 {
                    collect_members(members@, 0, path, depth + 1, a1)
                } else {
                    a1
                }
            },
            _ => push_unique_spec(a, scalar_assert(v, path)),
        }
    }
}

/// The asserts collected from the members of an object from the `i`-th on.
pub open spec fn collect_members(
    ms: Seq<(String, JsonValue)>,
    i: int,
    path: Seq<char>,
    depth: nat,
    a: Seq<Seq<char>>,
) -> Seq<Seq<char>>
    decreases ms, ms.len() - i,
{
    if i < 0 || i >= ms.len() {
        a
    } else {
        let a1 = collect_asserts(ms[i].1, member_path(path, ms[i].0@), depth, a);
        if a1.len() >= MAX_JSON_ASSERTIONS {
            a1
        } else {
            collect_members(ms, i + 1, path, depth, a1)
        }
    }
}

/// No assert occurs twice.
pub open spec fn distinct(a: Seq<Seq<char>>) -> bool {
    forall|i: int, j: int| 0 <= i < j < a.len() ==> a[i] != a[j]
}

/// Adding an assert unless it is there keeps the asserts distinct.
pub proof fn lemma_push_unique_distinct(a: Seq<Seq<char>>, line: Seq<char>)
    requires
        distinct(a),
    ensures
        distinct(push_unique_spec(a, line)),
        push_unique_spec(a, line).contains(line),
        forall|x: Seq<char>| a.contains(x) ==> push_unique_spec(a, line).contains(x),
{
    if !a.contains(line) {
        let b = a.push(line);
        assert forall|i: int, j: int| 0 <= i < j < b.len() implies b[i] != b[j] by {
            if j == a.len() {
                assert(b[i] == a[i]);
            }
        }
        assert(b[a.len() as int] == line);
        assert forall|x: Seq<char>| a.contains(x) implies b.contains(x) by {
            let k = choose|k: int| 0 <= k < a.len() && a[k] == x;
            assert(b[k] == x);
        }
    }
}

/// Collecting keeps the asserts distinct and never drops one that was there.
pub proof fn lemma_collect_distinct(v: JsonValue, path: Seq<char>, depth: nat, a: Seq<Seq<char>>)
    requires
        distinct(a),
    ensures
        distinct(collect_asserts(v, path, depth, a)),
        collect_asserts(v, path, depth, a).len() >= a.len(),
    decreases v, 0nat,
{
    if a.len() < MAX_JSON_ASSERTIONS {
        match v {
            JsonValue::Array(items) => {
                let l1 = jsonpath_of(path) + " count == "@ + decimal(items@.len());
                let l2 = jsonpath_of(path) + " exists"@;
                lemma_push_unique_distinct(a, l1);
                lemma_push_unique_distinct(push_unique_spec(a, l1), l2);
                if depth < 2 && items@.len() > 0 {
                    let a1 = push_unique_spec(push_unique_spec(a, l1), l2);
                    assert(decreases_to!(v => items));
                    lemma_collect_distinct(items@[0], path + "[0]"@, depth + 1, a1);
                }
            },
            JsonValue::Object(members) => {
                let a1 = if path == "$"@ {
                    a
                } else {
                    push_unique_spec(a, jsonpath_of(path) + " exists"@)
                };
                if path != "$"@ {
                    lemma_push_unique_distinct(a, jsonpath_of(path) + " exists"@);
                }
                if depth < 2 {
                    assert(decreases_to!(v => members));
                    lemma_members_distinct(members@, 0, path, depth + 1, a1);
                }
            },
            _ => {
                lemma_push_unique_distinct(a, scalar_assert(v, path));
            },
        }
    }
}

pub proof fn lemma_members_distinct(
    ms: Seq<(String, JsonValue)>,
    i: int,
    path: Seq<char>,
    depth: nat,
    a: Seq<Seq<char>>,
)
    requires
        distinct(a),
    ensures
        distinct(collect_members(ms, i, path, depth, a)),
        collect_members(ms, i, path, depth, a).len() >= a.len(),
    decreases ms, ms.len() - i,
{
    if 0 <= i < ms.len() {
        lemma_collect_distinct(ms[i].1, member_path(path, ms[i].0@), depth, a);
        let a1 = collect_asserts(ms[i].1, member_path(path, ms[i].0@), depth, a);
        if a1.len() < MAX_JSON_ASSERTIONS {
            lemma_members_distinct(ms, i + 1, path, depth, a1);
        }
    }
}

/// The opening that every assert collected at `path`, or below it, has: `jsonpath "` and
/// the path.
pub open spec fn path_opening(path: Seq<char>) -> Seq<char> {
    "jsonpath \""@ + path
}

/// The shape of what collecting at `path` gives from `a`: `a` stays as its prefix; once 40
/// asserts are there nothing is added; no more than 41 asserts come out unless `a` held
/// more; and every added assert opens with `jsonpath "` and the path.
pub open spec fn collected_from(r: Seq<Seq<char>>, a: Seq<Seq<char>>, path: Seq<char>) -> bool {
    &&& r.len() >= a.len()
    &&& r.subrange(0, a.len() as int) == a
    &&& a.len() >= MAX_JSON_ASSERTIONS ==> r == a
    &&& r.len() <= (if a.len() > MAX_JSON_ASSERTIONS + 1 { a.len() as int } else { MAX_JSON_ASSERTIONS + 1 })
    &&& forall|k: int| a.len() <= k < r.len() ==> starts_with(#[trigger] r[k], path_opening(path))
}

proof fn lemma_collected_trans(r: Seq<Seq<char>>, b: Seq<Seq<char>>, a: Seq<Seq<char>>, path: Seq<char>)
    requires
        collected_from(b, a, path),
        collected_from(r, b, path),
        a.len() < MAX_JSON_ASSERTIONS ==> b.len() <= MAX_JSON_ASSERTIONS + 1,
    ensures
        collected_from(r, a, path),
{
    assert(r.subrange(0, a.len() as int) =~= b.subrange(0, a.len() as int)) by {
        assert forall|k: int| 0 <= k < a.len() implies r.subrange(0, a.len() as int)[k] == b.subrange(
            0,
            a.len() as int,
        )[k] by {
            assert(r[k] == r.subrange(0, b.len() as int)[k]);
        }
    }
    assert forall|k: int| a.len() <= k < r.len() implies starts_with(#[trigger] r[k], path_opening(path)) by {
        if k < b.len() {
            assert(r[k] == r.subrange(0, b.len() as int)[k]);
        }
    }
}

proof fn lemma_push_collected(a: Seq<Seq<char>>, line: Seq<char>, path: Seq<char>)
    requires
        starts_with(line, path_opening(path)),
        a.len() < MAX_JSON_ASSERTIONS + 1,
    ensures
        collected_from(push_unique_spec(a, line), a, path) || a.len() >= MAX_JSON_ASSERTIONS,
        push_unique_spec(a, line).len() <= a.len() + 1,
        push_unique_spec(a, line).subrange(0, a.len() as int) == a,
        forall|k: int| a.len() <= k < push_unique_spec(a, line).len() ==> starts_with(
            #[trigger] push_unique_spec(a, line)[k],
            path_opening(path),
        ),
{
    let r = push_unique_spec(a, line);
    assert(r.subrange(0, a.len() as int) =~= a);
}

proof fn lemma_opening_below(line: Seq<char>, path: Seq<char>, x: Seq<char>)
    requires
        starts_with(line, path_opening(path + x)),
    ensures
        starts_with(line, path_opening(path)),
{
    let o = path_opening(path);
    let ox = path_opening(path + x);
    assert(ox.subrange(0, o.len() as int) =~= o);
    assert(line.subrange(0, o.len() as int) =~= ox.subrange(0, o.len() as int)) by {
        assert forall|k: int| 0 <= k < o.len() implies line.subrange(0, o.len() as int)[k]
            == ox.subrange(0, o.len() as int)[k] by {
            assert(line[k] == line.subrange(0, ox.len() as int)[k]);
        }
    }
}

proof fn lemma_jsonpath_opening(path: Seq<char>, rest: Seq<char>)
    ensures
        starts_with(jsonpath_of(path) + rest, path_opening(path)),
{
    reveal_strlit("\"");
    assert((jsonpath_of(path) + rest).subrange(0, path_opening(path).len() as int) =~= path_opening(path));
}

/// Collecting the asserts of a JSON value keeps the asserts that were there as a prefix,
/// adds nothing once 40 are there, gives at most 41 unless more were there already, and
/// every assert it adds opens with `jsonpath "` and the path it starts from.
pub proof fn lemma_collect_shape(v: JsonValue, path: Seq<char>, depth: nat, a: Seq<Seq<char>>)
    ensures
        collected_from(collect_asserts(v, path, depth, a), a, path),
    decreases v, 0nat,
{
    let r = collect_asserts(v, path, depth, a);
    if a.len() >= MAX_JSON_ASSERTIONS {
        assert(r.subrange(0, a.len() as int) =~= a);
    } else {
        match v {
            JsonValue::Array(items) => {
                let l1 = jsonpath_of(path) + " count == "@ + decimal(items@.len());
                let l2 = jsonpath_of(path) + " exists"@;
                lemma_jsonpath_opening(path, " count == "@ + decimal(items@.len()));
                assert(l1 =~= jsonpath_of(path) + (" count == "@ + decimal(items@.len())));
                lemma_jsonpath_opening(path, " exists"@);
                let b = push_unique_spec(a, l1);
                lemma_push_collected(a, l1, path);
                lemma_push_collected(b, l2, path);
                let a1 = push_unique_spec(b, l2);
                assert(collected_from(a1, a, path)) by {
                    assert(a1.subrange(0, a.len() as int) =~= a) by {
                        assert forall|k: int| 0 <= k < a.len() implies a1.subrange(0, a.len() as int)[k] == a[k] by {
                            assert(a1[k] == a1.subrange(0, b.len() as int)[k]);
                            assert(b[k] == b.subrange(0, a.len() as int)[k]);
                        }
                    }
                    assert forall|k: int| a.len() <= k < a1.len() implies starts_with(#[trigger] a1[k], path_opening(path)) by {
                        if k < b.len() {
                            assert(a1[k] == a1.subrange(0, b.len() as int)[k]);
                        }
                    }
                }
                if depth < 2 && items@.len() > 0 {
                    assert(decreases_to!(v => items));
                    let sub = path + "[0]"@;
                    lemma_collect_shape(items@[0], sub, depth + 1, a1);
                    let r1 = collect_asserts(items@[0], sub, depth + 1, a1);
                    assert(collected_from(r1, a1, path)) by {
                        assert forall|k: int| a1.len() <= k < r1.len() implies starts_with(#[trigger] r1[k], path_opening(path)) by {
                            lemma_opening_below(r1[k], path, "[0]"@);
                        }
                    }
                    lemma_collected_trans(r1, a1, a, path);
                }
            },
            JsonValue::Object(members) => {
                let a1 = if path == "$"@ {
                    a
                } else {
                    push_unique_spec(a, jsonpath_of(path) + " exists"@)
                };
                lemma_jsonpath_opening(path, " exists"@);
                lemma_push_collected(a, jsonpath_of(path) + " exists"@, path);
                assert(collected_from(a1, a, path)) by {
                    assert(a1.subrange(0, a.len() as int) =~= a);
                }
                if depth < 2 {
                    assert(decreases_to!(v => members));
                    lemma_members_shape(members@, 0, path, depth + 1, a1);
                    lemma_collected_trans(collect_members(members@, 0, path, depth + 1, a1), a1, a, path);
                }
            },
            _ => {
                let line = scalar_assert(v, path);
                match v {
                    JsonValue::Null => lemma_jsonpath_opening(path, " == null"@),
                    JsonValue::Bool(b) => lemma_jsonpath_opening(path, if b { " == true"@ } else { " == false"@ }),
                    JsonValue::Number { text, .. } => {
                        lemma_jsonpath_opening(path, " == "@ + text@);
                        assert(line =~= jsonpath_of(path) + (" == "@ + text@));
                    },
                    JsonValue::Str(t) => {
                        lemma_jsonpath_opening(path, " == \""@ + escape_hurl(t@) + "\""@);
                        assert(line =~= jsonpath_of(path) + (" == \""@ + escape_hurl(t@) + "\""@));
                    },
                    _ => {},
                }
                lemma_push_collected(a, line, path);
            },
        }
    }
}

/// Collecting the asserts of members has the shape of `collected_from`, at the object's
/// path.
pub proof fn lemma_members_shape(
    ms: Seq<(String, JsonValue)>,
    i: int,
    path: Seq<char>,
    depth: nat,
    a: Seq<Seq<char>>,
)
    ensures
        collected_from(collect_members(ms, i, path, depth, a), a, path),
    decreases ms, ms.len() - i,
{
    let r = collect_members(ms, i, path, depth, a);
    if 0 <= i < ms.len() {
        let mp = member_path(path, ms[i].0@);
        lemma_collect_shape(ms[i].1, mp, depth, a);
        let a1 = collect_asserts(ms[i].1, mp, depth, a);
        let x = if is_simple_key(ms[i].0@) { seq!['.'] + ms[i].0@ } else { "[\""@ + escape_hurl(ms[i].0@) + "\"]"@ };
        assert(mp =~= path + x);
        assert(collected_from(a1, a, path)) by {
            assert forall|k: int| a.len() <= k < a1.len() implies starts_with(#[trigger] a1[k], path_opening(path)) by {
                lemma_opening_below(a1[k], path, x);
            }
        }
        if a1.len() < MAX_JSON_ASSERTIONS {
            lemma_members_shape(ms, i + 1, path, depth, a1);
            lemma_collected_trans(r, a1, a, path);
        }
    } else {
        assert(r.subrange(0, a.len() as int) =~= a);
    }
}

/// `jsonpath "PATH"` followed by `rest`.
fn jsonpath_line(path: &[char], rest: &str) -> (r: Vec<char>)
    ensures
        r@ == jsonpath_of(path@) + rest@,
{
    let mut out: Vec<char> = Vec::new();
    push_str(&mut out, "jsonpath \"");
    push_all(&mut out, path);
    push_str(&mut out, "\"");
    push_str(&mut out, rest);
    proof {
        assert(out@ =~= jsonpath_of(path@) + rest@);
    }
    out
}

/// Adds `line` at the end of `assertions` unless it is there already.
fn push_unique(assertions: &mut Vec<Vec<char>>, line: Vec<char>)
    ensures
        char_views(final(assertions)@) == push_unique_spec(char_views(old(assertions)@), line@),
{
    let ghost a = char_views(assertions@);
    let mut i: usize = 0;
    while i < assertions.len()
        invariant
            i <= assertions@.len(),
            a == char_views(assertions@),
            forall|k: int| 0 <= k < i ==> a[k] != line@,
        decreases assertions.len() - i,
    {
        if eq_chars(assertions[i].as_slice(), line.as_slice()) {
            proof {
                assert(a[i as int] == line@);
                assert(a.contains(line@));
            }
            return;
        }
        i = i + 1;
    }
    proof {
        assert(!a.contains(line@));
    }
    assertions.push(line);
    proof {
        assert(char_views(assertions@) =~= a.push(line@));
    }
}

fn scalar_line(value: &JsonValue, path: &[char]) -> (r: Vec<char>)
    requires
        !(value is Array || value is Object),
    ensures
        r@ == scalar_assert(*value, path@),
{
    match value {
        JsonValue::Null => jsonpath_line(path, " == null"),
        JsonValue::Bool(b) => {
            if *b {
                jsonpath_line(path, " == true")
            } else {
                jsonpath_line(path, " == false")
            }
        },
        JsonValue::Number { text, .. } => {
            let mut out = jsonpath_line(path, " == ");
            let t = chars_of(text.as_str());
            push_all(&mut out, t.as_slice());
            out
        },
        JsonValue::Str(v) => {
            let mut out = jsonpath_line(path, " == \"");
            let t = chars_of(v.as_str());
            push_escaped(&mut out, t.as_slice());
            push_str(&mut out, "\"");
            proof {
                assert(out@ =~= scalar_assert(*value, path@));
            }
            out
        },
        _ => Vec::new(),
    }
}

/// Collects the asserts of `value` at `path` into `assertions` (see `collect_asserts`).
fn collect_json_assertions(value: &JsonValue, path: &[char], depth: usize, assertions: &mut Vec<Vec<char>>)
    ensures
        char_views(final(assertions)@) == collect_asserts(*value, path@, depth as nat, char_views(old(assertions)@)),
    decreases value, 0nat,
{
    if assertions.len() >= MAX_JSON_ASSERTIONS {
        return;
    }
    match value {
        JsonValue::Array(items) => {
            let mut count_line = jsonpath_line(path, " count == ");
            push_decimal(&mut count_line, items.len() as u64);
            push_unique(assertions, count_line);
            push_unique(assertions, jsonpath_line(path, " exists"));
            if depth < 2 && items.len() > 0 {
                let mut first_path = vstd::slice::slice_to_vec(path);
                push_str(&mut first_path, "[0]");
                proof {
                    assert(decreases_to!(*value => items));
                }
                collect_json_assertions(&items[0], first_path.as_slice(), depth + 1, assertions);
            }
        },
        JsonValue::Object(members) => {
            let dollar = chars_of("$");
            let root = eq_chars(path, dollar.as_slice());
            let ghost a0 = char_views(assertions@);
            if !root {
                push_unique(assertions, jsonpath_line(path, " exists"));
            }
            proof {
                assert(decreases_to!(*value => members));
            }
            assert(char_views(assertions@) == (if path@ == "$"@ {
                a0
            } else {
                push_unique_spec(a0, jsonpath_of(path@) + " exists"@)
            }));
            if depth < 2 {
                let ghost ms = members@;
                let ghost a1 = char_views(assertions@);
                let mut i: usize = 0;
                while i < members.len()
                    invariant_except_break
                        i <= ms.len(),
                        ms == members@,
                        decreases_to!(*value => members),
                        depth < 2,
                        collect_members(ms, 0, path@, (depth + 1) as nat, a1) == collect_members(
                            ms,
                            i as int,
                            path@,
                            (depth + 1) as nat,
                            char_views(assertions@),
                        ),
                    ensures
                        char_views(assertions@) == collect_members(ms, 0, path@, (depth + 1) as nat, a1),
                    decreases members.len() - i,
                {
                    let key = chars_of(members[i].0.as_str());
                    let key_path = append_jsonpath(path, key.as_slice());
                    collect_json_assertions(&members[i].1, key_path.as_slice(), depth + 1, assertions);
                    if assertions.len() >= MAX_JSON_ASSERTIONS {
                        break;
                    }
                    i = i + 1;
                }
            }
            assert(char_views(assertions@) == collect_asserts(*value, path@, depth as nat, char_views(old(assertions)@)));
        },
        _ => {
            let line = scalar_line(value, path);
            push_unique(assertions, line);
        },
    }
}

/// The asserts suggested for a JSON value (none where there is no value): those collected
/// from the root `$`.
pub open spec fn json_assertions(json: Option<JsonValue>) -> Seq<Seq<char>> {
    match json {
        Some(v) => collect_asserts(v, "$"@, 0, seq![]),
        None => seq![],
    }
}

/// The asserts suggested for a JSON value that was read, or none.
pub fn assertions_from_json(json: &Option<JsonValue>) -> (r: Vec<String>)
    ensures
        string_views(r@) == json_assertions(*json),
{
    match json {
        Some(v) => {
            let mut found: Vec<Vec<char>> = Vec::new();
            proof {
                assert(char_views(found@) =~= seq![]);
            }
            let root = chars_of("$");
            collect_json_assertions(v, root.as_slice(), 0, &mut found);
            strings_of(&found)
        },
        None => {
            let r: Vec<String> = Vec::new();
            proof {
                assert(string_views(r@) =~= seq![]);
            }
            r
        },
    }
}

/// The JSONPath asserts suggested for a response body: none where the body is not JSON.
pub fn generate_json_assertions(body: &str) -> (r: Vec<String>)
    ensures
        string_views(r@) == json_assertions(parsed_json(body@)),
{
    let json = parse_json(body);
    assertions_from_json(&json)
}

/// Suggested asserts are distinct.
pub proof fn lemma_json_assertions_distinct(json: Option<JsonValue>)
    ensures
        distinct(json_assertions(json)),
{
    if let Some(v) = json {
        lemma_collect_distinct(v, "$"@, 0, seq![]);
    }
}

/// A boolean at `path` is suggested as `jsonpath "path" == true` when it is true and as
/// `jsonpath "path" == false` when it is false: the assert states the value itself, and is
/// added unless it is there already or 40 asserts are collected.
pub proof fn lemma_bool_assert(b: bool, path: Seq<char>, depth: nat, a: Seq<Seq<char>>)
    requires
        a.len() < MAX_JSON_ASSERTIONS,
    ensures
        b ==> collect_asserts(JsonValue::Bool(b), path, depth, a) == push_unique_spec(a, "jsonpath \""@ + path + "\" == true"@),
        !b ==> collect_asserts(JsonValue::Bool(b), path, depth, a) == push_unique_spec(a, "jsonpath \""@ + path + "\" == false"@),
        collect_asserts(JsonValue::Bool(b), path, depth, a).contains(
            "jsonpath \""@ + path + (if b { "\" == true"@ } else { "\" == false"@ }),
        ),
{
    reveal_strlit("\"");
    reveal_strlit(" == true");
    reveal_strlit(" == false");
    reveal_strlit("\" == true");
    reveal_strlit("\" == false");
    assert("\""@ + " == true"@ =~= "\" == true"@);
    assert("\""@ + " == false"@ =~= "\" == false"@);
    let line = "jsonpath \""@ + path + (if b { "\" == true"@ } else { "\" == false"@ });
    assert(scalar_assert(JsonValue::Bool(b), path) =~= line);
    lemma_push_unique_contains(a, line);
}

/// `null` at `path` is suggested as `jsonpath "path" == null`.
pub proof fn lemma_null_assert(path: Seq<char>, depth: nat, a: Seq<Seq<char>>)
    requires
        a.len() < MAX_JSON_ASSERTIONS,
    ensures
        collect_asserts(JsonValue::Null, path, depth, a) == push_unique_spec(a, "jsonpath \""@ + path + "\" == null"@),
        collect_asserts(JsonValue::Null, path, depth, a).contains("jsonpath \""@ + path + "\" == null"@),
{
    reveal_strlit("\"");
    reveal_strlit(" == null");
    reveal_strlit("\" == null");
    let line = "jsonpath \""@ + path + "\" == null"@;
    assert(scalar_assert(JsonValue::Null, path) =~= line);
    lemma_push_unique_contains(a, line);
}

/// A number at `path` is suggested as `jsonpath "path" == ` followed by the number's own
/// text.
pub proof fn lemma_number_assert(text: String, is_i64: bool, is_u64: bool, path: Seq<char>, depth: nat, a: Seq<Seq<char>>)
    requires
        a.len() < MAX_JSON_ASSERTIONS,
    ensures
        collect_asserts(JsonValue::Number { text, is_i64, is_u64 }, path, depth, a)
            == push_unique_spec(a, "jsonpath \""@ + path + "\" == "@ + text@),
        collect_asserts(JsonValue::Number { text, is_i64, is_u64 }, path, depth, a).contains(
            "jsonpath \""@ + path + "\" == "@ + text@,
        ),
{
    reveal_strlit("\"");
    reveal_strlit(" == ");
    reveal_strlit("\" == ");
    let line = "jsonpath \""@ + path + "\" == "@ + text@;
    assert(scalar_assert(JsonValue::Number { text, is_i64, is_u64 }, path) =~= line);
    lemma_push_unique_contains(a, line);
}

/// A string at `path` is suggested as `jsonpath "path" == "s"`, with the string's own
/// characters and its `\` and `"` escaped.
pub proof fn lemma_string_assert(s: String, path: Seq<char>, depth: nat, a: Seq<Seq<char>>)
    requires
        a.len() < MAX_JSON_ASSERTIONS,
    ensures
        collect_asserts(JsonValue::Str(s), path, depth, a)
            == push_unique_spec(a, "jsonpath \""@ + path + "\" == \""@ + escape_hurl(s@) + "\""@),
        collect_asserts(JsonValue::Str(s), path, depth, a).contains(
            "jsonpath \""@ + path + "\" == \""@ + escape_hurl(s@) + "\""@,
        ),
{
    reveal_strlit("\"");
    reveal_strlit(" == \"");
    reveal_strlit("\" == \"");
    let line = "jsonpath \""@ + path + "\" == \""@ + escape_hurl(s@) + "\""@;
    assert(scalar_assert(JsonValue::Str(s), path) =~= line);
    lemma_push_unique_contains(a, line);
}

proof fn lemma_push_unique_contains(a: Seq<Seq<char>>, line: Seq<char>)
    ensures
        push_unique_spec(a, line).contains(line),
{
    if !a.contains(line) {
        assert(a.push(line)[a.len() as int] == line);
    }
}

/// A JSON object whose first member has a simple key `k` and a boolean value `b` is
/// suggested first `jsonpath "$.k" == true` or `jsonpath "$.k" == false`, after the text of
/// `b` itself.
pub proof fn lemma_first_member_bool(members: Vec<(String, JsonValue)>, b: bool)
    requires
        members@.len() > 0,
        members@[0].1 == JsonValue::Bool(b),
        is_simple_key(members@[0].0@),
    ensures
        json_assertions(Some(JsonValue::Object(members))).len() > 0,
        json_assertions(Some(JsonValue::Object(members)))[0]
            == "jsonpath \"$."@ + members@[0].0@ + (if b { "\" == true"@ } else { "\" == false"@ }),
{
    let ms = members@;
    let v = JsonValue::Object(members);
    let empty: Seq<Seq<char>> = seq![];
    reveal_strlit("$");
    reveal_strlit("jsonpath \"");
    reveal_strlit("jsonpath \"$.");
    let mp = member_path("$"@, ms[0].0@);
    assert(mp =~= "$"@ + seq!['.'] + ms[0].0@);
    lemma_bool_assert(b, mp, 1, empty);
    let a1 = collect_asserts(ms[0].1, mp, 1, empty);
    let line = "jsonpath \""@ + mp + (if b { "\" == true"@ } else { "\" == false"@ });
    assert(a1 =~= seq![line]);
    assert(json_assertions(Some(v)) == collect_members(ms, 0, "$"@, 1, empty));
    lemma_members_shape(ms, 1, "$"@, 1, a1);
    let r = collect_members(ms, 1, "$"@, 1, a1);
    assert(collect_members(ms, 0, "$"@, 1, empty) == r);
    assert(r[0] == r.subrange(0, 1)[0]);
    assert(line =~= "jsonpath \"$."@ + ms[0].0@ + (if b { "\" == true"@ } else { "\" == false"@ }));
}

/// Entry `j` comes before entry `k` in line order (ties in listing order).
pub open spec fn comes_before(es: Seq<EntryInfoV>, j: int, k: int) -> bool {
    es[j].start_line < es[k].start_line || (es[j].start_line == es[k].start_line && j < k)
}

/// Among the first `n` entries, the first in line order whose index is `entry_index`.
pub open spec fn target_upto(es: Seq<EntryInfoV>, entry_index: usize, n: int) -> Option<int>
    decreases n,
{
    if n <= 0 {
        None
    } else {
        let t = target_upto(es, entry_index, n - 1);
        if es[n - 1].index == entry_index && (t is None || comes_before(es, n - 1, t->0)) {
            Some(n - 1)
        } else {
            t
        }
    }
}

/// Among the first `n` entries, the one that follows entry `t` in line order.
pub open spec fn next_upto(es: Seq<EntryInfoV>, t: int, n: int) -> Option<int>
    decreases n,
{
    if n <= 0 {
        None
    } else {
        let b = next_upto(es, t, n - 1);
        if comes_before(es, t, n - 1) && (b is None || comes_before(es, n - 1, b->0)) {
            Some(n - 1)
        } else {
            b
        }
    }
}

proof fn lemma_next_upto(es: Seq<EntryInfoV>, t: int, n: int)
    ensures
        match next_upto(es, t, n) {
            Some(k) => 0 <= k < n && comes_before(es, t, k),
            None => true,
        },
    decreases n,
{
    if n > 0 {
        lemma_next_upto(es, t, n - 1);
    }
}

/// The kinds of line that the writing of asserts looks for.
pub enum LineKind {
    /// `[Asserts]`, trimmed, in any ASCII case.
    AssertsHeader,
    /// A trimmed line that starts with `[` and ends with `]`.
    SectionHeader,
    /// A line that, without its leading white space and upper-cased, starts with `HTTP `.
    StatusLine,
}

pub open spec fn line_is(kind: LineKind, line: Seq<char>) -> bool {
    match kind {
        LineKind::AssertsHeader => eq_ignore_ascii_case(trim(line), "[asserts]"@),
        LineKind::SectionHeader => trim(line).len() > 0 && trim(line)[0] == '[' && trim(line).last() == ']',
        LineKind::StatusLine => starts_with(upper_text(trim_start(line)), "HTTP "@),
    }
}

/// The first line in `lo..hi` of the given kind.
pub open spec fn first_line_of(ls: Seq<Seq<char>>, lo: int, hi: int, kind: LineKind) -> Option<int>
    decreases hi - lo,
{
    if lo >= hi {
        None
    } else if line_is(kind, ls[lo]) {
        Some(lo)
    } else {
        first_line_of(ls, lo + 1, hi, kind)
    }
}

/// `a` is one of the non-blank lines in `lo..hi`, trimmed.
pub open spec fn is_existing(ls: Seq<Seq<char>>, lo: int, hi: int, a: Seq<char>) -> bool {
    exists|k: int| lo <= k < hi && trim(#[trigger] ls[k]).len() > 0 && trim(ls[k]) == a
}

/// The asserts that are not among the non-blank lines in `lo..hi`, in order.
pub open spec fn new_asserts(asserts: Seq<Seq<char>>, ls: Seq<Seq<char>>, lo: int, hi: int) -> Seq<Seq<char>>
    decreases asserts.len(),
{
    if asserts.len() == 0 {
        seq![]
    } else {
        let rest = new_asserts(asserts.drop_last(), ls, lo, hi);
        if is_existing(ls, lo, hi, asserts.last()) {
            rest
        } else {
            rest.push(asserts.last())
        }
    }
}

/// `ins` put between the first `at` lines and the rest.
pub open spec fn insert_lines(ls: Seq<Seq<char>>, at: int, ins: Seq<Seq<char>>) -> Seq<Seq<char>> {
    ls.take(at) + ins + ls.skip(at)
}

/// Every entry starts at most one line past the end of the text.
pub open spec fn starts_within(es: Seq<EntryInfoV>, line_count: nat) -> bool {
    forall|j: int| 0 <= j < es.len() ==> (#[trigger] es[j].start_line).saturating_sub(1) <= line_count
}

/// Where the block of entry `t` ends: where the next entry in line order starts, or the
/// end of the text.
pub open spec fn block_end(es: Seq<EntryInfoV>, t: int, line_count: nat) -> int {
    match next_upto(es, t, es.len() as int) {
        Some(k) => es[k].start_line.saturating_sub(1) as int,
        None => line_count as int,
    }
}

/// The text with `asserts` written into the block of the entry whose index is
/// `entry_index`, and how many were written. In a block with an `[Asserts]` section, the
/// asserts that are not there yet go at its end (before the next section header); in a
/// block without one, a new `[Asserts]` section with all of them goes after the status
/// line. The lines are then joined with `\n`; where nothing is written the text is
/// unchanged.
pub open spec fn injected(
    content: Seq<char>,
    es: Seq<EntryInfoV>,
    entry_index: usize,
    asserts: Seq<Seq<char>>,
) -> Result<(Seq<char>, nat), Seq<char>> {
    match target_upto(es, entry_index, es.len() as int) {
        None => Err("Entry ordering failure"@),
        Some(t) => {
            let ls = lines(content);
            let start = es[t].start_line.saturating_sub(1) as int;
            let end = block_end(es, t, ls.len());
            match first_line_of(ls, start, end, LineKind::AssertsHeader) {
                Some(h) => {
                    let se = match first_line_of(ls, h + 1, end, LineKind::SectionHeader) {
                        Some(k) => k,
                        None => end,
                    };
                    let add = new_asserts(asserts, ls, h + 1, se);
                    if add.len() == 0 {
                        Ok((content, 0))
                    } else {
                        Ok((join_texts(insert_lines(ls, se, add), "\n"@), add.len()))
                    }
                },
                None => match first_line_of(ls, start, end, LineKind::StatusLine) {
                    None => Err("Unable to locate HTTP status line for entry"@),
                    Some(k) => {
                        if asserts.len() == 0 {
                            Ok((content, 0))
                        } else {
                            Ok((
                                join_texts(insert_lines(ls, k + 1, seq!["[Asserts]"@] + asserts), "\n"@),
                                asserts.len(),
                            ))
                        }
                    },
                },
            }
        },
    }
}

pub open spec fn injection_view(r: Result<(String, usize), String>) -> Result<(Seq<char>, nat), Seq<char>> {
    match r {
        Ok((c, n)) => Ok((c@, n as nat)),
        Err(e) => Err(e@),
    }
}

fn find_target(es: &Vec<EntryInfo>, entry_index: usize) -> (r: Option<usize>)
    ensures
        match r {
            Some(t) => target_upto(es.deep_view(), entry_index, es@.len() as int) == Some(t as int) && t < es@.len(),
            None => target_upto(es.deep_view(), entry_index, es@.len() as int) is None,
        },
{
    let ghost ev = es.deep_view();
    let mut best: Option<usize> = None;
    let mut n: usize = 0;
    while n < es.len()
        invariant
            n <= es@.len(),
            ev == es.deep_view(),
            match best {
                Some(t) => target_upto(ev, entry_index, n as int) == Some(t as int) && t < n,
                None => target_upto(ev, entry_index, n as int) is None,
            },
        decreases es.len() - n,
    {
        proof {
            assert(ev[n as int] == es@[n as int]@);
        }
        if es[n].index == entry_index {
            match best {
                None => {
                    best = Some(n);
                },
                Some(t) => {
                    proof {
                        assert(ev[t as int] == es@[t as int]@);
                    }
                    if es[n].start_line < es[t].start_line {
                        best = Some(n);
                    }
                },
            }
        }
        n = n + 1;
    }
    best
}

fn find_next(es: &Vec<EntryInfo>, t: usize) -> (r: Option<usize>)
    requires
        t < es@.len(),
    ensures
        match r {
            Some(k) => next_upto(es.deep_view(), t as int, es@.len() as int) == Some(k as int) && k < es@.len(),
            None => next_upto(es.deep_view(), t as int, es@.len() as int) is None,
        },
{
    let ghost ev = es.deep_view();
    let mut best: Option<usize> = None;
    let mut n: usize = 0;
    while n < es.len()
        invariant
            n <= es@.len(),
            t < es@.len(),
            ev == es.deep_view(),
            match best {
                Some(b) => next_upto(ev, t as int, n as int) == Some(b as int) && b < n,
                None => next_upto(ev, t as int, n as int) is None,
            },
        decreases es.len() - n,
    {
        proof {
            assert(ev[n as int] == es@[n as int]@);
            assert(ev[t as int] == es@[t as int]@);
        }
        let after_t = es[t].start_line < es[n].start_line || (es[t].start_line == es[n].start_line && t < n);
        if after_t {
            match best {
                None => {
                    best = Some(n);
                },
                Some(b) => {
                    proof {
                        assert(ev[b as int] == es@[b as int]@);
                    }
                    if es[n].start_line < es[b].start_line {
                        best = Some(n);
                    }
                },
            }
        }
        n = n + 1;
    }
    best
}

fn is_line_of(kind: &LineKind, line: &[char]) -> (r: bool)
    ensures
        r == line_is(*kind, line@),
{
    match kind {
        LineKind::AssertsHeader => eq_ignore_case_lit(trim_chars(line), "[asserts]"),
        LineKind::SectionHeader => {
            let t = trim_chars(line);
            t.len() > 0 && t[0] == '[' && t[t.len() - 1] == ']'
        },
        LineKind::StatusLine => {
            let t = string_from_chars(trim_start_chars(line));
            let up = to_uppercase(t.as_str());
            let upc = chars_of(up.as_str());
            starts_with_str(upc.as_slice(), "HTTP ")
        },
    }
}

fn find_line_of(ls: &Vec<Vec<char>>, lo: usize, hi: usize, kind: &LineKind) -> (r: Option<usize>)
    requires
        hi <= ls@.len(),
    ensures
        match r {
            Some(k) => first_line_of(char_views(ls@), lo as int, hi as int, *kind) == Some(k as int) && lo <= k < hi,
            None => first_line_of(char_views(ls@), lo as int, hi as int, *kind) is None,
        },
{
    let ghost lv = char_views(ls@);
    let mut k: usize = lo;
    while k < hi
        invariant
            hi <= ls@.len(),
            lv == char_views(ls@),
            lo <= k,
            first_line_of(lv, lo as int, hi as int, *kind) == first_line_of(lv, k as int, hi as int, *kind),
        decreases hi - k,
    {
        if is_line_of(kind, ls[k].as_slice()) {
            return Some(k);
        }
        k = k + 1;
    }
    None
}

fn existing_line(ls: &Vec<Vec<char>>, lo: usize, hi: usize, a: &[char]) -> (r: bool)
    requires
        hi <= ls@.len(),
    ensures
        r == is_existing(char_views(ls@), lo as int, hi as int, a@),
{
    let ghost lv = char_views(ls@);
    let mut k: usize = lo;
    while k < hi
        invariant
            hi <= ls@.len(),
            lv == char_views(ls@),
            lo <= k,
            forall|j: int| lo <= j < k ==> !(trim(#[trigger] lv[j]).len() > 0 && trim(lv[j]) == a@),
        decreases hi - k,
    {
        let t = trim_chars(ls[k].as_slice());
        proof {
            assert(lv[k as int] == ls@[k as int]@);
        }
        if t.len() > 0 && eq_chars(t, a) {
            return true;
        }
        k = k + 1;
    }
    false
}

/// The lines of `ls` with `ins` put at `at`.
fn insert_at(ls: &Vec<Vec<char>>, at: usize, ins: &Vec<Vec<char>>) -> (r: Vec<Vec<char>>)
    requires
        at <= ls@.len(),
    ensures
        char_views(r@) == insert_lines(char_views(ls@), at as int, char_views(ins@)),
{
    let mut r: Vec<Vec<char>> = Vec::new();
    let mut i: usize = 0;
    while i < at
        invariant
            i <= at <= ls@.len(),
            r@.len() == i,
            forall|k: int| 0 <= k < i ==> #[trigger] r@[k]@ == ls@[k]@,
        decreases at - i,
    {
        r.push(ls[i].clone());
        i = i + 1;
    }
    let mut j: usize = 0;
    while j < ins.len()
        invariant
            at <= ls@.len(),
            j <= ins@.len(),
            r@.len() == at + j,
            forall|k: int| 0 <= k < at ==> #[trigger] r@[k]@ == ls@[k]@,
            forall|k: int| 0 <= k < j ==> #[trigger] r@[at + k]@ == ins@[k]@,
        decreases ins.len() - j,
    {
        r.push(ins[j].clone());
        j = j + 1;
    }
    let mut i: usize = at;
    while i < ls.len()
        invariant
            at <= i <= ls@.len(),
            r@.len() == ins@.len() + i,
            forall|k: int| 0 <= k < at ==> #[trigger] r@[k]@ == ls@[k]@,
            forall|k: int| 0 <= k < ins@.len() ==> #[trigger] r@[at + k]@ == ins@[k]@,
            forall|k: int| at <= k < i ==> #[trigger] r@[ins@.len() + k]@ == ls@[k]@,
        decreases ls.len() - i,
    {
        r.push(ls[i].clone());
        i = i + 1;
    }
    proof {
        let want = insert_lines(char_views(ls@), at as int, char_views(ins@));
        assert forall|k: int| 0 <= k < r@.len() implies #[trigger] char_views(r@)[k] == want[k] by {
            if k < at {
                assert(r@[k]@ == ls@[k]@);
            } else if k < at + ins@.len() {
                assert(r@[at + (k - at)]@ == ins@[k - at]@);
            } else {
                assert(r@[ins@.len() + (k - ins@.len())]@ == ls@[k - ins@.len()]@);
            }
        }
        assert(char_views(r@) =~= want);
    }
    r
}

fn asserts_not_present(assertions: &Vec<Vec<char>>, ls: &Vec<Vec<char>>, lo: usize, hi: usize) -> (r: Vec<Vec<char>>)
    requires
        hi <= ls@.len(),
    ensures
        char_views(r@) == new_asserts(char_views(assertions@), char_views(ls@), lo as int, hi as int),
{
    let ghost av = char_views(assertions@);
    let mut r: Vec<Vec<char>> = Vec::new();
    let mut i: usize = 0;
    while i < assertions.len()
        invariant
            i <= assertions@.len(),
            hi <= ls@.len(),
            av == char_views(assertions@),
            char_views(r@) == new_asserts(av.take(i as int), char_views(ls@), lo as int, hi as int),
        decreases assertions.len() - i,
    {
        let ghost before = r@;
        let present = existing_line(ls, lo, hi, assertions[i].as_slice());
        if !present {
            r.push(assertions[i].clone());
        }
        proof {
            let t = av.take(i + 1);
            assert(t.drop_last() =~= av.take(i as int));
            assert(t.last() == assertions@[i as int]@);
            if !present {
                assert(char_views(r@) =~= char_views(before).push(assertions@[i as int]@));
            }
        }
        i = i + 1;
    }
    proof {
        assert(av.take(assertions@.len() as int) =~= av);
    }
    r
}

fn char_lines_of(v: &Vec<String>) -> (r: Vec<Vec<char>>)
    ensures
        char_views(r@) == string_views(v@),
{
    let mut r: Vec<Vec<char>> = Vec::new();
    let mut i: usize = 0;
    while i < v.len()
        invariant
            i <= v@.len(),
            r@.len() == i,
            forall|k: int| 0 <= k < i ==> #[trigger] r@[k]@ == v@[k]@,
        decreases v.len() - i,
    {
        r.push(chars_of(v[i].as_str()));
        i = i + 1;
    }
    proof {
        assert(char_views(r@) =~= string_views(v@));
    }
    r
}

/// Writes `assertions` into the block of the entry whose index is `entry_index`, the
/// entries of `content` being `entries` (see `injected`).
pub fn inject_assertions(
    content: &str,
    entries: &Vec<EntryInfo>,
    entry_index: usize,
    assertions: &Vec<String>,
) -> (r: Result<(String, usize), String>)
    requires
        starts_within(entries.deep_view(), lines(content@).len()),
    ensures
        injection_view(r) == injected(content@, entries.deep_view(), entry_index, string_views(assertions@)),
{
    let ghost ev = entries.deep_view();
    let t = match find_target(entries, entry_index) {
        Some(t) => t,
        None => {
            return Err("Entry ordering failure".to_owned());
        },
    };
    proof {
        reveal_strlit("Entry ordering failure");
    }
    let ls = lines_of(content);
    let ghost lv = char_views(ls@);
    proof {
        assert(lv.len() == ls@.len());
        assert(ev[t as int] == entries@[t as int]@);
        assert(ev[t as int].start_line.saturating_sub(1) <= lv.len());
    }
    let start = entries[t].start_line.saturating_sub(1) as usize;
    let end = match find_next(entries, t) {
        Some(k) => {
            proof {
                lemma_next_upto(ev, t as int, ev.len() as int);
                assert(ev[k as int] == entries@[k as int]@);
                assert(ev[k as int].start_line.saturating_sub(1) <= lv.len());
            }
            entries[k].start_line.saturating_sub(1) as usize
        },
        None => ls.len(),
    };
    assert(start <= end <= ls@.len());
    assert(end == block_end(ev, t as int, lv.len()));
    let header = find_line_of(&ls, start, end, &LineKind::AssertsHeader);
    match header {
        Some(h) => {
            let section_end = match find_line_of(&ls, h + 1, end, &LineKind::SectionHeader) {
                Some(k) => k,
                None => end,
            };
            let wanted = char_lines_of(assertions);
            let add = asserts_not_present(&wanted, &ls, h + 1, section_end);
            if add.len() == 0 {
                return Ok((content.to_owned(), 0));
            }
            let out = insert_at(&ls, section_end, &add);
            Ok((joined_lines(&out), add.len()))
        },
        None => {
            let status = find_line_of(&ls, start, end, &LineKind::StatusLine);
            match status {
                None => {
                    proof {
                        reveal_strlit("Unable to locate HTTP status line for entry");
                    }
                    Err("Unable to locate HTTP status line for entry".to_owned())
                },
                Some(k) => {
                    if assertions.len() == 0 {
                        return Ok((content.to_owned(), 0));
                    }
                    let mut ins: Vec<Vec<char>> = Vec::new();
                    ins.push(chars_of("[Asserts]"));
                    let wanted = char_lines_of(assertions);
                    let mut j: usize = 0;
                    while j < wanted.len()
                        invariant
                            j <= wanted@.len(),
                            ins@.len() == j + 1,
                            ins@[0]@ == "[Asserts]"@,
                            forall|q: int| 0 <= q < j ==> #[trigger] ins@[q + 1]@ == wanted@[q]@,
                        decreases wanted.len() - j,
                    {
                        ins.push(wanted[j].clone());
                        j = j + 1;
                    }
                    proof {
                        let want = seq!["[Asserts]"@] + string_views(assertions@);
                        assert forall|q: int| 0 <= q < ins@.len() implies #[trigger] char_views(ins@)[q] == want[q] by {
                            if q > 0 {
                                assert(ins@[(q - 1) + 1]@ == wanted@[q - 1]@);
                                assert(char_views(wanted@)[q - 1] == string_views(assertions@)[q - 1]);
                            }
                        }
                        assert(char_views(ins@) =~= want);
                    }
                    let out = insert_at(&ls, k + 1, &ins);
                    Ok((joined_lines(&out), assertions.len()))
                },
            }
        },
    }
}

/// The text that an entry's block may not start beyond, for the writing of asserts.
pub open spec fn outside_text_error() -> Seq<char> {
    "Entry start line is outside the file"@
}

/// `asserts` written into the entry whose index is `entry_index` of `content`, the entries
/// being those that `hurl_core` finds: nothing to write leaves the text as it is; a parse
/// error is returned as is; an entry that starts past the end of the text is refused.
pub open spec fn injected_into_entry(
    content: Seq<char>,
    entry_index: usize,
    asserts: Seq<Seq<char>>,
) -> Result<(Seq<char>, nat), Seq<char>> {
    if asserts.len() == 0 {
        Ok((content, 0))
    } else {
        match hurl_entries(content, parsed_hurl(content)) {
            Err(e) => Err(e),
            Ok(es) => {
                if starts_within(es, lines(content).len()) {
                    injected(content, es, entry_index, asserts)
                } else {
                    Err(outside_text_error())
                }
            },
        }
    }
}

fn entries_start_within(entries: &Vec<EntryInfo>, line_count: usize) -> (r: bool)
    ensures
        r == starts_within(entries.deep_view(), line_count as nat),
{
    let ghost ev = entries.deep_view();
    let mut j: usize = 0;
    while j < entries.len()
        invariant
            j <= entries@.len(),
            ev == entries.deep_view(),
            forall|q: int| 0 <= q < j ==> (#[trigger] ev[q].start_line).saturating_sub(1) <= line_count,
        decreases entries.len() - j,
    {
        proof {
            assert(ev[j as int] == entries@[j as int]@);
        }
        if entries[j].start_line.saturating_sub(1) as usize > line_count {
            proof {
                assert(!((ev[j as int].start_line).saturating_sub(1) <= line_count));
            }
            return false;
        }
        j = j + 1;
    }
    true
}

/// Writes `assertions` into the entry whose index is `entry_index` (see
/// `injected_into_entry`).
pub fn inject_assertions_into_entry(
    content: &str,
    entry_index: usize,
    assertions: &Vec<String>,
) -> (r: Result<(String, usize), String>)
    ensures
        injection_view(r) == injected_into_entry(content@, entry_index, string_views(assertions@)),
{
    if assertions.len() == 0 {
        return Ok((content.to_owned(), 0));
    }
    let entries = match parse_hurl_entries(content) {
        Ok(es) => es,
        Err(e) => {
            return Err(e);
        },
    };
    let ls = lines_of(content);
    if !entries_start_within(&entries, ls.len()) {
        proof {
            reveal_strlit("Entry start line is outside the file");
        }
        return Err("Entry start line is outside the file".to_owned());
    }
    inject_assertions(content, &entries, entry_index, assertions)
}

/// The asserts kept to write are among those asked for, none of them already in the
/// section, and no more than were asked for.
pub proof fn lemma_new_asserts(asserts: Seq<Seq<char>>, ls: Seq<Seq<char>>, lo: int, hi: int)
    ensures
        new_asserts(asserts, ls, lo, hi).len() <= asserts.len(),
        forall|i: int| 0 <= i < new_asserts(asserts, ls, lo, hi).len() ==> {
            let a = #[trigger] new_asserts(asserts, ls, lo, hi)[i];
            !is_existing(ls, lo, hi, a) && asserts.contains(a)
        },
    decreases asserts.len(),
{
    if asserts.len() > 0 {
        let rest = asserts.drop_last();
        lemma_new_asserts(rest, ls, lo, hi);
        let r = new_asserts(rest, ls, lo, hi);
        assert forall|i: int| 0 <= i < new_asserts(asserts, ls, lo, hi).len() implies {
            let a = #[trigger] new_asserts(asserts, ls, lo, hi)[i];
            !is_existing(ls, lo, hi, a) && asserts.contains(a)
        } by {
            let a = new_asserts(asserts, ls, lo, hi)[i];
            if i < r.len() {
                assert(a == r[i]);
                let k = choose|k: int| 0 <= k < rest.len() && rest[k] == a;
                assert(asserts[k] == a);
            } else {
                assert(a == asserts.last());
                assert(asserts[asserts.len() - 1] == a);
            }
        }
    }
}

/// Writing asserts reports at most as many as were asked for, and leaves the text as it is
/// when it reports none.
pub proof fn lemma_injected_count(content: Seq<char>, es: Seq<EntryInfoV>, entry_index: usize, asserts: Seq<Seq<char>>)
    ensures
        injected(content, es, entry_index, asserts) matches Ok((text, n)) ==> n <= asserts.len() && (n == 0
            ==> text == content),
{
    if let Some(t) = target_upto(es, entry_index, es.len() as int) {
        let ls = lines(content);
        let start = es[t].start_line.saturating_sub(1) as int;
        let end = block_end(es, t, ls.len());
        if let Some(h) = first_line_of(ls, start, end, LineKind::AssertsHeader) {
            let se = match first_line_of(ls, h + 1, end, LineKind::SectionHeader) {
                Some(k) => k,
                None => end,
            };
            lemma_new_asserts(asserts, ls, h + 1, se);
        }
    }
}

} // verus!
