//! Reading a Hurl file into the model, line by line.

use vstd::prelude::*;
use crate::model::{
    Method, method_named, Entry, EntryV, HurlFile, HurlFileV, ResponseSpec, ResponseSpecV,
    empty_request, KeyValue, KeyValueV, Body, BodyV, Capture, CaptureV, Assert, AssertV,
    Query, QueryV, Predicate, PredicateV, PredicateValue, PredicateValueV, Request, RequestV,
};
use crate::num::{parse_signed, parse_unsigned, parse_i64, parse_u16, is_float_literal, is_float_literal_exec};
use crate::text::{
    is_ws, is_whitespace, trim, trim_chars, trim_start, trim_start_chars, starts_with,
    starts_with_str, eq_str, find, find_char, lemma_find_from, find_ws_from,
    find_ws_from_exec, lemma_find_ws_from, tokens, first_tokens, upper_text, string_from_chars,
    push_all, chars_of, char_views, lines,
};

verus! {

/// `key: value`, split at the first colon, both parts trimmed; the key must be non-empty
/// and hold no space.
pub open spec fn key_value_of(t: Seq<char>) -> Option<KeyValueV> {
    match find(t, ':') {
        None => None,
        Some(p) => {
            let key = trim(t.take(p));
            if key.len() == 0 || key.contains(' ') {
                None
            } else {
                Some(KeyValueV { key: key, value: trim(t.skip(p + 1)), enabled: true })
            }
        },
    }
}

fn contains_char(s: &[char], c: char) -> (r: bool)
    ensures
        r == s@.contains(c),
{
    let mut i: usize = 0;
    while i < s.len()
        invariant
            i <= s@.len(),
            forall|j: int| 0 <= j < i ==> s@[j] != c,
        decreases s.len() - i,
    {
        if s[i] == c {
            assert(s@[i as int] == c);
            return true;
        }
        i = i + 1;
    }
    false
}

fn parse_key_value(t: &[char]) -> (r: Option<KeyValue>)
    ensures
        r.deep_view() == key_value_of(t@),
{
    let p = match find_char(t, ':') {
        Some(p) => p,
        None => return None,
    };
    proof {
        lemma_find_from(t@, ':', 0);
    }
    let n = t.len();
    let left = &t[0..p];
    let right = &t[p + 1..n];
    proof {
        assert(left@ =~= t@.take(p as int));
        assert(right@ =~= t@.skip(p + 1));
    }
    let key = trim_chars(left);
    if key.len() == 0 || contains_char(key, ' ') {
        return None;
    }
    let value = trim_chars(right);
    Some(KeyValue { key: string_from_chars(key), value: string_from_chars(value), enabled: true })
}

/// The first whitespace-separated word of `t`, or nothing.
pub open spec fn first_word(t: Seq<char>) -> Seq<char> {
    if tokens(t).len() > 0 {
        tokens(t)[0]
    } else {
        seq![]
    }
}

/// A line whose first word names a method (after upper-casing) starts a request.
pub open spec fn is_request_line(t: Seq<char>) -> bool {
    method_named(upper_text(first_word(t))) is Some
}

fn is_request_line_exec(t: &[char]) -> (r: bool)
    ensures
        r == is_request_line(t@),
{
    let words = first_tokens(t, 1);
    let word: Vec<char> = if words.len() > 0 {
        words[0].clone()
    } else {
        Vec::new()
    };
    proof {
        assert(char_views(words@).len() == words@.len());
        if words.len() > 0 {
            assert(char_views(words@)[0] == words@[0]@);
        }
        assert(word@ == first_word(t@));
    }
    let w = string_from_chars(word.as_slice());
    Method::from_str(w.as_str()).is_some()
}

/// The method and URL of a request line: split at the first whitespace, the URL trimmed;
/// a first part that names no method gives `GET`.
pub open spec fn request_line_of(t: Seq<char>) -> (Method, Seq<char>) {
    let (m, url) = match find_ws_from(t, 0) {
        None => (t, Seq::<char>::empty()),
        Some(p) => (t.take(p), trim(t.skip(p + 1))),
    };
    let method = match method_named(upper_text(m)) {
        Some(x) => x,
        None => Method::Get,
    };
    (method, url)
}

fn parse_request_line(t: &[char]) -> (r: (Method, String))
    ensures
        r.0 == request_line_of(t@).0,
        r.1@ == request_line_of(t@).1,
{
    let n = t.len();
    let (m, url): (&[char], Vec<char>) = match find_ws_from_exec(t, 0) {
        None => (t, Vec::new()),
        Some(p) => {
            proof {
                lemma_find_ws_from(t@, 0);
            }
            let left = &t[0..p];
            let right = &t[p + 1..n];
            proof {
                assert(left@ =~= t@.take(p as int));
                assert(right@ =~= t@.skip(p + 1));
            }
            (left, vstd::slice::slice_to_vec(trim_chars(right)))
        },
    };
    let ms = string_from_chars(m);
    let method = match Method::from_str(ms.as_str()) {
        Some(x) => x,
        None => Method::Get,
    };
    (method, string_from_chars(url.as_slice()))
}

/// A line that starts with `HTTP/` or `HTTP ` holds the expected status.
pub open spec fn is_response_line(t: Seq<char>) -> bool {
    starts_with(t, "HTTP/"@) || starts_with(t, "HTTP "@)
}

fn is_response_line_exec(t: &[char]) -> (r: bool)
    ensures
        r == is_response_line(t@),
{
    starts_with_str(t, "HTTP/") || starts_with_str(t, "HTTP ")
}

/// The second word of a status line read as a `u16`, if it is one.
pub open spec fn response_status_of(t: Seq<char>) -> Option<u16> {
    if tokens(t).len() >= 2 {
        match parse_unsigned(tokens(t)[1], u16::MAX as int) {
            Some(v) => Some(v as u16),
            None => None,
        }
    } else {
        None
    }
}

fn parse_response_line(t: &[char]) -> (r: Option<u16>)
    ensures
        r == response_status_of(t@),
{
    let parts = first_tokens(t, 2);
    proof {
        assert(char_views(parts@).len() == parts@.len());
    }
    if parts.len() >= 2 {
        proof {
            assert(char_views(parts@)[1] == parts@[1]@);
            assert(tokens(t@)[1] == parts@[1]@);
        }
        parse_u16(parts[1].as_slice())
    } else {
        None
    }
}

/// The sections of a request or response that the parser tells apart.
#[derive(Debug, Clone, Copy, PartialEq, Eq, Structural)]
pub enum Section {
    Query,
    Form,
    Cookies,
    Options,
    Captures,
    Asserts,
}

/// The section that a header line such as `[Asserts]` opens.
pub open spec fn section_of(t: Seq<char>) -> Option<Section> {
    if t == "[Query]"@ || t == "[QueryStringParams]"@ {
        Some(Section::Query)
    } else if t == "[Form]"@ || t == "[FormParams]"@ {
        Some(Section::Form)
    } else if t == "[Cookies]"@ {
        Some(Section::Cookies)
    } else if t == "[Options]"@ {
        Some(Section::Options)
    } else if t == "[Captures]"@ {
        Some(Section::Captures)
    } else if t == "[Asserts]"@ {
        Some(Section::Asserts)
    } else {
        None
    }
}

fn parse_section_header(t: &[char]) -> (r: Option<Section>)
    ensures
        r == section_of(t@),
{
    if eq_str(t, "[Query]") || eq_str(t, "[QueryStringParams]") {
        Some(Section::Query)
    } else if eq_str(t, "[Form]") || eq_str(t, "[FormParams]") {
        Some(Section::Form)
    } else if eq_str(t, "[Cookies]") {
        Some(Section::Cookies)
    } else if eq_str(t, "[Options]") {
        Some(Section::Options)
    } else if eq_str(t, "[Captures]") {
        Some(Section::Captures)
    } else if eq_str(t, "[Asserts]") {
        Some(Section::Asserts)
    } else {
        None
    }
}


/// `ls` without its trailing lines that are blank after trimming.
pub open spec fn drop_blank_tail(ls: Seq<Seq<char>>) -> Seq<Seq<char>>
    decreases ls.len(),
{
    if ls.len() > 0 && trim(ls.last()).len() == 0 {
        drop_blank_tail(ls.drop_last())
    } else {
        ls
    }
}

/// The lines joined with `\n` between them.
pub open spec fn join_lines(ls: Seq<Seq<char>>) -> Seq<char>
    decreases ls.len(),
{
    if ls.len() == 0 {
        seq![]
    } else if ls.len() == 1 {
        ls[0]
    } else {
        join_lines(ls.drop_last()) + seq!['\n'] + ls.last()
    }
}

/// The kind of a body by its first character: `{` or `[` is JSON, `<` is XML, else text.
pub open spec fn body_of(tt: Seq<char>) -> BodyV {
    if tt.len() > 0 && (tt[0] == '{' || tt[0] == '[') {
        BodyV::Json(tt)
    } else if tt.len() > 0 && tt[0] == '<' {
        BodyV::Xml(tt)
    } else {
        BodyV::Text(tt)
    }
}

/// The request and pending body lines after the pending lines are closed into a body.
pub open spec fn finalize(req: RequestV, bl: Seq<Seq<char>>) -> (RequestV, Seq<Seq<char>>) {
    if bl.len() == 0 {
        (req, bl)
    } else {
        let b = drop_blank_tail(bl);
        if b.len() == 0 {
            (req, b)
        } else {
            let tt = trim(join_lines(b));
            if tt.len() == 0 {
                (req, b)
            } else {
                (RequestV { body: Some(body_of(tt)), ..req }, seq![])
            }
        }
    }
}

/// A body text is read by its first character: one that starts with `{` or `[` is a JSON
/// body, one that starts with `<` an XML body, and any other a text body; the body holds
/// the text unchanged.
pub proof fn lemma_body_kind(tt: Seq<char>)
    requires
        tt.len() > 0,
    ensures
        (tt[0] == '{' || tt[0] == '[') ==> body_of(tt) == BodyV::Json(tt),
        tt[0] == '<' ==> body_of(tt) == BodyV::Xml(tt),
        (tt[0] != '{' && tt[0] != '[' && tt[0] != '<') ==> body_of(tt) == BodyV::Text(tt),
        body_of(tt) is Json <==> (tt[0] == '{' || tt[0] == '['),
{
}

/// Closing pending body lines whose text, without the blank lines at their end and trimmed,
/// is `tt` and not empty sets the request's body to `tt`: a JSON body where `tt` starts
/// with `{` or `[`, an XML body where it starts with `<`, a text body otherwise; the rest
/// of the request stays, and no line is left pending.
pub proof fn lemma_finalize_body(req: RequestV, bl: Seq<Seq<char>>)
    requires
        trim(join_lines(drop_blank_tail(bl))).len() > 0,
    ensures
        ({
            let tt = trim(join_lines(drop_blank_tail(bl)));
            let (r, rest) = finalize(req, bl);
            &&& rest.len() == 0
            &&& r == RequestV { body: r.body, ..req }
            &&& (tt[0] == '{' || tt[0] == '[') ==> r.body == Some(BodyV::Json(tt))
            &&& tt[0] == '<' ==> r.body == Some(BodyV::Xml(tt))
            &&& (tt[0] != '{' && tt[0] != '[' && tt[0] != '<') ==> r.body == Some(BodyV::Text(tt))
        }),
{
    let b = drop_blank_tail(bl);
    if bl.len() == 0 {
        assert(join_lines(b) =~= seq![]);
    }
    if b.len() == 0 {
        assert(join_lines(b) =~= seq![]);
    }
}

fn join_lines_exec(ls: &Vec<Vec<char>>) -> (r: Vec<char>)
    ensures
        r@ == join_lines(char_views(ls@)),
{
    let mut out: Vec<char> = Vec::new();
    let mut i: usize = 0;
    while i < ls.len()
        invariant
            i <= ls@.len(),
            out@ == join_lines(char_views(ls@).take(i as int)),
        decreases ls.len() - i,
    {
        let ghost before = char_views(ls@).take(i as int);
        if i > 0 {
            out.push('\n');
        }
        push_all(&mut out, ls[i].as_slice());
        proof {
            let after = char_views(ls@).take(i + 1);
            assert(after.drop_last() =~= before);
            assert(after.last() == ls@[i as int]@);
            if i == 0 {
                assert(out@ =~= after[0]);
            }
        }
        i = i + 1;
    }
    proof {
        assert(char_views(ls@).take(ls@.len() as int) =~= char_views(ls@));
    }
    out
}

fn finalize_body(request: &mut Request, body_lines: &mut Vec<Vec<char>>)
    ensures
        (final(request)@, char_views(final(body_lines)@)) == finalize(old(request)@, char_views(old(body_lines)@)),
{
    if body_lines.len() == 0 {
        return;
    }
    let ghost bl0 = char_views(body_lines@);
    while body_lines.len() > 0 && trim_chars(body_lines[body_lines.len() - 1].as_slice()).len() == 0
        invariant
            drop_blank_tail(bl0) == drop_blank_tail(char_views(body_lines@)),
        decreases body_lines.len(),
    {
        let ghost before = char_views(body_lines@);
        body_lines.pop();
        proof {
            assert(char_views(body_lines@) =~= before.drop_last());
        }
    }
    proof {
        let cv = char_views(body_lines@);
        if cv.len() > 0 {
            assert(cv.last() == body_lines@[body_lines@.len() - 1]@);
        }
        assert(drop_blank_tail(cv) == cv);
    }
    if body_lines.len() == 0 {
        return;
    }
    let text = join_lines_exec(body_lines);
    let tt = trim_chars(text.as_slice());
    if tt.len() == 0 {
        return;
    }
    let s = string_from_chars(tt);
    let body = if tt[0] == '{' || tt[0] == '[' {
        Body::Json(s)
    } else if tt[0] == '<' {
        Body::Xml(s)
    } else {
        Body::Text(s)
    };
    request.body = Some(body);
    body_lines.clear();
    proof {
        assert(char_views(body_lines@) =~= Seq::<Seq<char>>::empty());
    }
}

/// The index of the `"` that closes a quoted string, looking from `i` on, where a
/// backslash makes the next character part of the string.
pub open spec fn closing_quote_from(s: Seq<char>, i: int) -> Option<int>
    decreases s.len() + 1 - i,
{
    if i < 0 || i >= s.len() {
        None
    } else if s[i] == '\\' {
        closing_quote_from(s, i + 2)
    } else if s[i] == '"' {
        Some(i)
    } else {
        closing_quote_from(s, i + 1)
    }
}

/// The index of the `"` that closes the string that `s` opens with `"`.
pub open spec fn closing_quote(s: Seq<char>) -> Option<int> {
    closing_quote_from(s, 1)
}

pub proof fn lemma_closing_quote_from(s: Seq<char>, i: int)
    requires
        0 <= i,
    ensures
        closing_quote_from(s, i) matches Some(k) ==> i <= k < s.len() && s[k] == '"',
    decreases s.len() + 1 - i,
{
    if 0 <= i < s.len() {
        if s[i] == '\\' {
            lemma_closing_quote_from(s, i + 2);
        } else if s[i] != '"' {
            lemma_closing_quote_from(s, i + 1);
        }
    }
}

fn find_closing_quote(s: &[char]) -> (r: Option<usize>)
    ensures
        match r {
            Some(k) => closing_quote(s@) == Some(k as int),
            None => closing_quote(s@) is None,
        },
{
    let mut i: usize = 1;
    while i < s.len()
        invariant
            1 <= i,
            closing_quote(s@) == closing_quote_from(s@, i as int),
        decreases s.len() - i,
    {
        if s[i] == '\\' {
            if i + 1 >= s.len() {
                proof {
                    assert(closing_quote_from(s@, i + 2) is None);
                }
                return None;
            }
            i = i + 2;
            continue;
        }
        if s[i] == '"' {
            return Some(i);
        }
        i = i + 1;
    }
    None
}

/// The content of the quoted string that opens `s`, without its quotes.
pub open spec fn quoted(s: Seq<char>) -> Option<Seq<char>> {
    if s.len() > 0 && s[0] == '"' {
        match closing_quote(s) {
            Some(e) => Some(s.subrange(1, e)),
            None => None,
        }
    } else {
        None
    }
}

fn extract_quoted_string(s: &[char]) -> (r: Option<Vec<char>>)
    ensures
        match r {
            Some(v) => quoted(s@) == Some(v@),
            None => quoted(s@) is None,
        },
{
    if s.len() == 0 || s[0] != '"' {
        return None;
    }
    match find_closing_quote(s) {
        Some(e) => {
            proof {
                lemma_closing_quote_from(s@, 1);
            }
            Some(vstd::slice::slice_to_vec(&s[1..e]))
        },
        None => None,
    }
}

/// The first word of the trimmed `s` and the rest after it, whitespace included.
pub open spec fn split_first_word(s: Seq<char>) -> Option<(Seq<char>, Seq<char>)> {
    let i = trim(s);
    match find_ws_from(i, 0) {
        None => None,
        Some(p) => Some((i.take(p), i.skip(p))),
    }
}

fn split_first_word_exec(s: &[char]) -> (r: Option<(&[char], &[char])>)
    ensures
        match r {
            Some((w, rest)) => split_first_word(s@) == Some((w@, rest@)),
            None => split_first_word(s@) is None,
        },
{
    let i = trim_chars(s);
    let n = i.len();
    match find_ws_from_exec(i, 0) {
        None => None,
        Some(p) => {
            proof {
                lemma_find_ws_from(i@, 0);
            }
            let w = &i[0..p];
            let rest = &i[p..n];
            proof {
                assert(w@ =~= i@.take(p as int));
                assert(rest@ =~= i@.skip(p as int));
            }
            Some((w, rest))
        },
    }
}


/// The query that a keyword with a quoted argument names.
pub open spec fn param_query(kw: Seq<char>, arg: Seq<char>) -> Option<QueryV> {
    if kw == "jsonpath"@ {
        Some(QueryV::JsonPath(arg))
    } else if kw == "header"@ {
        Some(QueryV::Header(arg))
    } else if kw == "xpath"@ {
        Some(QueryV::XPath(arg))
    } else if kw == "regex"@ {
        Some(QueryV::Regex(arg))
    } else if kw == "cookie"@ {
        Some(QueryV::Cookie(arg))
    } else if kw == "variable"@ {
        Some(QueryV::Variable(arg))
    } else if kw == "certificate"@ {
        Some(QueryV::Certificate(arg))
    } else {
        None
    }
}

fn param_query_exec(kw: &[char], arg: &[char]) -> (r: Option<Query>)
    ensures
        r.deep_view() == param_query(kw@, arg@),
{
    let a = string_from_chars(arg);
    if eq_str(kw, "jsonpath") {
        Some(Query::JsonPath(a))
    } else if eq_str(kw, "header") {
        Some(Query::Header(a))
    } else if eq_str(kw, "xpath") {
        Some(Query::XPath(a))
    } else if eq_str(kw, "regex") {
        Some(Query::Regex(a))
    } else if eq_str(kw, "cookie") {
        Some(Query::Cookie(a))
    } else if eq_str(kw, "variable") {
        Some(Query::Variable(a))
    } else if eq_str(kw, "certificate") {
        Some(Query::Certificate(a))
    } else {
        None
    }
}

/// The query that a keyword without argument names.
pub open spec fn simple_query(kw: Seq<char>) -> Option<QueryV> {
    if kw == "status"@ {
        Some(QueryV::Status)
    } else if kw == "url"@ {
        Some(QueryV::Url)
    } else if kw == "body"@ {
        Some(QueryV::Body)
    } else if kw == "duration"@ {
        Some(QueryV::Duration)
    } else if kw == "bytes"@ {
        Some(QueryV::Bytes)
    } else if kw == "sha256"@ {
        Some(QueryV::Sha256)
    } else if kw == "md5"@ {
        Some(QueryV::Md5)
    } else if kw == "ip"@ {
        Some(QueryV::Ip)
    } else {
        None
    }
}

fn simple_query_exec(kw: &[char]) -> (r: Option<Query>)
    ensures
        r.deep_view() == simple_query(kw@),
{
    if eq_str(kw, "status") {
        Some(Query::Status)
    } else if eq_str(kw, "url") {
        Some(Query::Url)
    } else if eq_str(kw, "body") {
        Some(Query::Body)
    } else if eq_str(kw, "duration") {
        Some(Query::Duration)
    } else if eq_str(kw, "bytes") {
        Some(Query::Bytes)
    } else if eq_str(kw, "sha256") {
        Some(Query::Sha256)
    } else if eq_str(kw, "md5") {
        Some(Query::Md5)
    } else if eq_str(kw, "ip") {
        Some(Query::Ip)
    } else {
        None
    }
}

/// A query as a capture writes it: a keyword alone, or a keyword and a quoted argument.
pub open spec fn query_of(input: Seq<char>) -> Option<QueryV> {
    let i = trim(input);
    if simple_query(i) is Some {
        simple_query(i)
    } else {
        match split_first_word(i) {
            None => None,
            Some((kw, rest)) => match quoted(trim(rest)) {
                None => None,
                Some(arg) => param_query(kw, arg),
            },
        }
    }
}

fn parse_query(input: &[char]) -> (r: Option<Query>)
    ensures
        r.deep_view() == query_of(input@),
{
    let i = trim_chars(input);
    let q = simple_query_exec(i);
    if q.is_some() {
        return q;
    }
    match split_first_word_exec(i) {
        None => None,
        Some((kw, rest)) => match extract_quoted_string(trim_chars(rest)) {
            None => None,
            Some(arg) => param_query_exec(kw, arg.as_slice()),
        },
    }
}

/// `name: query`, split at the first colon.
pub open spec fn capture_of(t: Seq<char>) -> Option<CaptureV> {
    match find(t, ':') {
        None => None,
        Some(p) => match query_of(trim(t.skip(p + 1))) {
            None => None,
            Some(q) => Some(CaptureV { name: trim(t.take(p)), query: q }),
        },
    }
}

fn parse_capture(t: &[char]) -> (r: Option<Capture>)
    ensures
        r.deep_view() == capture_of(t@),
{
    let p = match find_char(t, ':') {
        Some(p) => p,
        None => return None,
    };
    proof {
        lemma_find_from(t@, ':', 0);
    }
    let n = t.len();
    let left = &t[0..p];
    let right = &t[p + 1..n];
    proof {
        assert(left@ =~= t@.take(p as int));
        assert(right@ =~= t@.skip(p + 1));
    }
    let name = string_from_chars(trim_chars(left));
    match parse_query(trim_chars(right)) {
        None => None,
        Some(q) => Some(Capture { name, query: q }),
    }
}

/// A predicate value: `null`, `true`, `false`, a quoted string, an integer, a float
/// literal, or else the text itself as a string.
pub open spec fn value_of(input: Seq<char>) -> Option<PredicateValueV> {
    let i = trim(input);
    if i.len() == 0 {
        None
    } else if i == "null"@ {
        Some(PredicateValueV::Null)
    } else if i == "true"@ {
        Some(PredicateValueV::Bool(true))
    } else if i == "false"@ {
        Some(PredicateValueV::Bool(false))
    } else if i[0] == '"' && quoted(i) is Some {
        Some(PredicateValueV::String(quoted(i).unwrap()))
    } else if parse_signed(i, i64::MIN as int, i64::MAX as int) is Some {
        Some(PredicateValueV::Integer(parse_signed(i, i64::MIN as int, i64::MAX as int).unwrap() as i64))
    } else if is_float_literal(i) {
        Some(PredicateValueV::Float(i))
    } else {
        Some(PredicateValueV::String(i))
    }
}

fn parse_value(input: &[char]) -> (r: Option<PredicateValue>)
    ensures
        r.deep_view() == value_of(input@),
{
    let i = trim_chars(input);
    if i.len() == 0 {
        return None;
    }
    if eq_str(i, "null") {
        return Some(PredicateValue::Null);
    }
    if eq_str(i, "true") {
        return Some(PredicateValue::Bool(true));
    }
    if eq_str(i, "false") {
        return Some(PredicateValue::Bool(false));
    }
    if i[0] == '"' {
        match extract_quoted_string(i) {
            Some(v) => return Some(PredicateValue::String(string_from_chars(v.as_slice()))),
            None => {},
        }
    }
    match parse_i64(i) {
        Some(v) => return Some(PredicateValue::Integer(v)),
        None => {},
    }
    if is_float_literal_exec(i) {
        return Some(PredicateValue::Float(string_from_chars(i)));
    }
    Some(PredicateValue::String(string_from_chars(i)))
}

/// The value after an operator that opens `i`, if `i` opens with it and a value follows.
pub open spec fn op_value(i: Seq<char>, op: Seq<char>) -> Option<PredicateValueV> {
    if starts_with(i, op) {
        value_of(trim(i.skip(op.len() as int)))
    } else {
        None
    }
}

fn op_value_exec(i: &[char], op: &str) -> (r: Option<PredicateValue>)
    ensures
        r.deep_view() == op_value(i@, op@),
{
    let o = chars_of(op);
    if !crate::text::starts_with_chars(i, o.as_slice()) {
        return None;
    }
    let n = i.len();
    let rest = &i[o.len()..n];
    proof {
        assert(rest@ =~= i@.skip(op@.len() as int));
    }
    parse_value(trim_chars(rest))
}

/// The rest after `kw` when `i` opens with the word `kw`: nothing or whitespace must follow.
pub open spec fn after_word(i: Seq<char>, kw: Seq<char>) -> Option<Seq<char>> {
    if starts_with(i, kw) {
        let rest = i.skip(kw.len() as int);
        if rest.len() == 0 || is_ws(rest[0]) {
            Some(rest)
        } else {
            None
        }
    } else {
        None
    }
}

fn after_word_exec<'a>(i: &'a [char], kw: &str) -> (r: Option<&'a [char]>)
    ensures
        match r {
            Some(rest) => after_word(i@, kw@) == Some(rest@),
            None => after_word(i@, kw@) is None,
        },
{
    let k = chars_of(kw);
    if !crate::text::starts_with_chars(i, k.as_slice()) {
        return None;
    }
    let n = i.len();
    let rest = &i[k.len()..n];
    proof {
        assert(rest@ =~= i@.skip(kw@.len() as int));
    }
    if rest.len() == 0 || is_whitespace(rest[0]) {
        Some(rest)
    } else {
        None
    }
}

/// The value after a keyword predicate such as `contains` that opens `i`.
pub open spec fn kw_value(i: Seq<char>, kw: Seq<char>) -> Option<PredicateValueV> {
    match after_word(i, kw) {
        Some(rest) => value_of(trim(rest)),
        None => None,
    }
}

fn kw_value_exec(i: &[char], kw: &str) -> (r: Option<PredicateValue>)
    ensures
        r.deep_view() == kw_value(i@, kw@),
{
    match after_word_exec(i, kw) {
        Some(rest) => parse_value(trim_chars(rest)),
        None => None,
    }
}

/// A predicate: a word alone, an operator and a value, a keyword and a value, `matches`
/// and a quoted pattern, or `not exists`.
pub open spec fn predicate_of(input: Seq<char>) -> Option<PredicateV> {
    let i = trim(input);
    if i.len() == 0 {
        None
    } else if i == "exists"@ {
        Some(PredicateV::Exists)
    } else if i == "not exists"@ {
        Some(PredicateV::NotExists)
    } else if i == "isInteger"@ {
        Some(PredicateV::IsInteger)
    } else if i == "isFloat"@ {
        Some(PredicateV::IsFloat)
    } else if i == "isBoolean"@ {
        Some(PredicateV::IsBoolean)
    } else if i == "isString"@ {
        Some(PredicateV::IsString)
    } else if i == "isCollection"@ {
        Some(PredicateV::IsCollection)
    } else if i == "isEmpty"@ {
        Some(PredicateV::IsEmpty)
    } else if op_value(i, "=="@) is Some {
        Some(PredicateV::Equal(op_value(i, "=="@).unwrap()))
    } else if op_value(i, "!="@) is Some {
        Some(PredicateV::NotEqual(op_value(i, "!="@).unwrap()))
    } else if op_value(i, ">="@) is Some {
        Some(PredicateV::GreaterThanOrEqual(op_value(i, ">="@).unwrap()))
    } else if op_value(i, "<="@) is Some {
        Some(PredicateV::LessThanOrEqual(op_value(i, "<="@).unwrap()))
    } else if op_value(i, ">"@) is Some {
        Some(PredicateV::GreaterThan(op_value(i, ">"@).unwrap()))
    } else if op_value(i, "<"@) is Some {
        Some(PredicateV::LessThan(op_value(i, "<"@).unwrap()))
    } else if kw_value(i, "contains"@) is Some {
        Some(PredicateV::Contains(kw_value(i, "contains"@).unwrap()))
    } else if kw_value(i, "startsWith"@) is Some {
        Some(PredicateV::StartsWith(kw_value(i, "startsWith"@).unwrap()))
    } else if kw_value(i, "endsWith"@) is Some {
        Some(PredicateV::EndsWith(kw_value(i, "endsWith"@).unwrap()))
    } else if kw_value(i, "includes"@) is Some {
        Some(PredicateV::Includes(kw_value(i, "includes"@).unwrap()))
    } else if after_word(i, "matches"@) is Some && quoted(trim(after_word(i, "matches"@).unwrap())) is Some {
        Some(PredicateV::Matches(quoted(trim(after_word(i, "matches"@).unwrap())).unwrap()))
    } else if starts_with(i, "not "@) && trim(i.skip(4)) == "exists"@ {
        Some(PredicateV::NotExists)
    } else {
        None
    }
}

fn parse_predicate(input: &[char]) -> (r: Option<Predicate>)
    ensures
        r.deep_view() == predicate_of(input@),
{
    let i = trim_chars(input);
    if i.len() == 0 {
        return None;
    }
    if eq_str(i, "exists") {
        return Some(Predicate::Exists);
    }
    if eq_str(i, "not exists") {
        return Some(Predicate::NotExists);
    }
    if eq_str(i, "isInteger") {
        return Some(Predicate::IsInteger);
    }
    if eq_str(i, "isFloat") {
        return Some(Predicate::IsFloat);
    }
    if eq_str(i, "isBoolean") {
        return Some(Predicate::IsBoolean);
    }
    if eq_str(i, "isString") {
        return Some(Predicate::IsString);
    }
    if eq_str(i, "isCollection") {
        return Some(Predicate::IsCollection);
    }
    if eq_str(i, "isEmpty") {
        return Some(Predicate::IsEmpty);
    }
    if let Some(v) = op_value_exec(i, "==") {
        return Some(Predicate::Equal(v));
    }
    if let Some(v) = op_value_exec(i, "!=") {
        return Some(Predicate::NotEqual(v));
    }
    if let Some(v) = op_value_exec(i, ">=") {
        return Some(Predicate::GreaterThanOrEqual(v));
    }
    if let Some(v) = op_value_exec(i, "<=") {
        return Some(Predicate::LessThanOrEqual(v));
    }
    if let Some(v) = op_value_exec(i, ">") {
        return Some(Predicate::GreaterThan(v));
    }
    if let Some(v) = op_value_exec(i, "<") {
        return Some(Predicate::LessThan(v));
    }
    if let Some(v) = kw_value_exec(i, "contains") {
        return Some(Predicate::Contains(v));
    }
    if let Some(v) = kw_value_exec(i, "startsWith") {
        return Some(Predicate::StartsWith(v));
    }
    if let Some(v) = kw_value_exec(i, "endsWith") {
        return Some(Predicate::EndsWith(v));
    }
    if let Some(v) = kw_value_exec(i, "includes") {
        return Some(Predicate::Includes(v));
    }
    if let Some(rest) = after_word_exec(i, "matches") {
        if let Some(s) = extract_quoted_string(trim_chars(rest)) {
            return Some(Predicate::Matches(string_from_chars(s.as_slice())));
        }
    }
    if starts_with_str(i, "not ") {
        proof {
            reveal_strlit("not ");
        }
        let n = i.len();
        let rest = &i[4..n];
        proof {
            assert(rest@ =~= i@.skip(4));
        }
        if eq_str(trim_chars(rest), "exists") {
            return Some(Predicate::NotExists);
        }
    }
    None
}


/// When `line` opens with the word `kw` and then a quoted argument: the argument and the
/// trimmed rest after its closing quote.
pub open spec fn quoted_after_word(line: Seq<char>, kw: Seq<char>) -> Option<(Seq<char>, Seq<char>)> {
    if starts_with(line, kw) {
        let after = line.skip(kw.len() as int);
        if after.len() > 0 && is_ws(after[0]) {
            let a = trim_start(after);
            if a.len() > 0 && a[0] == '"' {
                match closing_quote(a) {
                    Some(e) => Some((a.subrange(1, e), trim(a.skip(e + 1)))),
                    None => None,
                }
            } else {
                None
            }
        } else {
            None
        }
    } else {
        None
    }
}

fn quoted_after_word_exec(line: &[char], kw: &str) -> (r: Option<(Vec<char>, Vec<char>)>)
    ensures
        match r {
            Some((arg, rest)) => quoted_after_word(line@, kw@) == Some((arg@, rest@)),
            None => quoted_after_word(line@, kw@) is None,
        },
{
    let k = chars_of(kw);
    if !crate::text::starts_with_chars(line, k.as_slice()) {
        return None;
    }
    let n = line.len();
    let after = &line[k.len()..n];
    proof {
        assert(after@ =~= line@.skip(kw@.len() as int));
    }
    if !(after.len() > 0 && is_whitespace(after[0])) {
        return None;
    }
    let a = trim_start_chars(after);
    if !(a.len() > 0 && a[0] == '"') {
        return None;
    }
    match find_closing_quote(a) {
        None => None,
        Some(e) => {
            proof {
                lemma_closing_quote_from(a@, 1);
            }
            let m = a.len();
            let arg = vstd::slice::slice_to_vec(&a[1..e]);
            let tail = &a[e + 1..m];
            proof {
                assert(tail@ =~= a@.skip(e + 1));
            }
            let rest = vstd::slice::slice_to_vec(trim_chars(tail));
            Some((arg, rest))
        },
    }
}

/// The query that opens an assert line and the trimmed rest after it.
pub open spec fn query_from_assert(line: Seq<char>) -> Option<(QueryV, Seq<char>)> {
    if after_word(line, "status"@) is Some {
        Some((QueryV::Status, trim(after_word(line, "status"@).unwrap())))
    } else if after_word(line, "url"@) is Some {
        Some((QueryV::Url, trim(after_word(line, "url"@).unwrap())))
    } else if after_word(line, "body"@) is Some {
        Some((QueryV::Body, trim(after_word(line, "body"@).unwrap())))
    } else if after_word(line, "duration"@) is Some {
        Some((QueryV::Duration, trim(after_word(line, "duration"@).unwrap())))
    } else if after_word(line, "bytes"@) is Some {
        Some((QueryV::Bytes, trim(after_word(line, "bytes"@).unwrap())))
    } else if after_word(line, "sha256"@) is Some {
        Some((QueryV::Sha256, trim(after_word(line, "sha256"@).unwrap())))
    } else if after_word(line, "md5"@) is Some {
        Some((QueryV::Md5, trim(after_word(line, "md5"@).unwrap())))
    } else if after_word(line, "ip"@) is Some {
        Some((QueryV::Ip, trim(after_word(line, "ip"@).unwrap())))
    } else if quoted_after_word(line, "jsonpath"@) is Some {
        let (a, r) = quoted_after_word(line, "jsonpath"@).unwrap();
        Some((QueryV::JsonPath(a), r))
    } else if quoted_after_word(line, "header"@) is Some {
        let (a, r) = quoted_after_word(line, "header"@).unwrap();
        Some((QueryV::Header(a), r))
    } else if quoted_after_word(line, "xpath"@) is Some {
        let (a, r) = quoted_after_word(line, "xpath"@).unwrap();
        Some((QueryV::XPath(a), r))
    } else if quoted_after_word(line, "regex"@) is Some {
        let (a, r) = quoted_after_word(line, "regex"@).unwrap();
        Some((QueryV::Regex(a), r))
    } else if quoted_after_word(line, "cookie"@) is Some {
        let (a, r) = quoted_after_word(line, "cookie"@).unwrap();
        Some((QueryV::Cookie(a), r))
    } else if quoted_after_word(line, "variable"@) is Some {
        let (a, r) = quoted_after_word(line, "variable"@).unwrap();
        Some((QueryV::Variable(a), r))
    } else if quoted_after_word(line, "certificate"@) is Some {
        let (a, r) = quoted_after_word(line, "certificate"@).unwrap();
        Some((QueryV::Certificate(a), r))
    } else {
        None
    }
}

fn simple_after(line: &[char], kw: &str) -> (r: Option<Vec<char>>)
    ensures
        match r {
            Some(rest) => after_word(line@, kw@) is Some && rest@ == trim(after_word(line@, kw@).unwrap()),
            None => after_word(line@, kw@) is None,
        },
{
    match after_word_exec(line, kw) {
        Some(rest) => Some(vstd::slice::slice_to_vec(trim_chars(rest))),
        None => None,
    }
}

fn parse_query_from_assert(line: &[char]) -> (r: Option<(Query, Vec<char>)>)
    ensures
        match r {
            Some((q, rest)) => query_from_assert(line@) == Some((q@, rest@)),
            None => query_from_assert(line@) is None,
        },
{
    if let Some(rest) = simple_after(line, "status") {
        return Some((Query::Status, rest));
    }
    if let Some(rest) = simple_after(line, "url") {
        return Some((Query::Url, rest));
    }
    if let Some(rest) = simple_after(line, "body") {
        return Some((Query::Body, rest));
    }
    if let Some(rest) = simple_after(line, "duration") {
        return Some((Query::Duration, rest));
    }
    if let Some(rest) = simple_after(line, "bytes") {
        return Some((Query::Bytes, rest));
    }
    if let Some(rest) = simple_after(line, "sha256") {
        return Some((Query::Sha256, rest));
    }
    if let Some(rest) = simple_after(line, "md5") {
        return Some((Query::Md5, rest));
    }
    if let Some(rest) = simple_after(line, "ip") {
        return Some((Query::Ip, rest));
    }
    if let Some((a, rest)) = quoted_after_word_exec(line, "jsonpath") {
        return Some((Query::JsonPath(string_from_chars(a.as_slice())), rest));
    }
    if let Some((a, rest)) = quoted_after_word_exec(line, "header") {
        return Some((Query::Header(string_from_chars(a.as_slice())), rest));
    }
    if let Some((a, rest)) = quoted_after_word_exec(line, "xpath") {
        return Some((Query::XPath(string_from_chars(a.as_slice())), rest));
    }
    if let Some((a, rest)) = quoted_after_word_exec(line, "regex") {
        return Some((Query::Regex(string_from_chars(a.as_slice())), rest));
    }
    if let Some((a, rest)) = quoted_after_word_exec(line, "cookie") {
        return Some((Query::Cookie(string_from_chars(a.as_slice())), rest));
    }
    if let Some((a, rest)) = quoted_after_word_exec(line, "variable") {
        return Some((Query::Variable(string_from_chars(a.as_slice())), rest));
    }
    if let Some((a, rest)) = quoted_after_word_exec(line, "certificate") {
        return Some((Query::Certificate(string_from_chars(a.as_slice())), rest));
    }
    None
}

/// An assert line: a query, then a predicate.
pub open spec fn assert_of(t: Seq<char>) -> Option<AssertV> {
    match query_from_assert(trim(t)) {
        None => None,
        Some((q, rest)) => match predicate_of(trim(rest)) {
            None => None,
            Some(p) => Some(AssertV { query: q, predicate: p }),
        },
    }
}

fn parse_assert(t: &[char]) -> (r: Option<Assert>)
    ensures
        r.deep_view() == assert_of(t@),
{
    let line = trim_chars(t);
    match parse_query_from_assert(line) {
        None => None,
        Some((q, rest)) => match parse_predicate(trim_chars(rest.as_slice())) {
            None => None,
            Some(p) => Some(Assert { query: q, predicate: p }),
        },
    }
}


/// Where the parser stands between two lines.
#[derive(Debug, Clone, Copy, PartialEq, Eq, Structural)]
pub enum State {
    Start,
    RequestHeaders,
    RequestSection(Section),
    RequestBody,
    ResponseHeaders,
    ResponseSection(Section),
}

/// The parser's state: the entries read so far and the entry being read.
pub struct PState {
    pub entries: Seq<EntryV>,
    pub state: State,
    pub comment: Option<Seq<char>>,
    pub request: RequestV,
    pub response: Option<ResponseSpecV>,
    pub body: Seq<Seq<char>>,
    pub has_request: bool,
}

pub open spec fn initial_pstate() -> PState {
    PState {
        entries: seq![],
        state: State::Start,
        comment: None,
        request: empty_request(),
        response: None,
        body: seq![],
        has_request: false,
    }
}

pub open spec fn empty_response(status: Option<u16>) -> ResponseSpecV {
    ResponseSpecV { status: status, headers: seq![], captures: seq![], asserts: seq![] }
}

/// `s` without the `#` characters that open it.
pub open spec fn strip_hashes(s: Seq<char>) -> Seq<char>
    decreases s.len(),
{
    if s.len() > 0 && s[0] == '#' {
        strip_hashes(s.drop_first())
    } else {
        s
    }
}

/// The text of a comment line.
pub open spec fn comment_text(t: Seq<char>) -> Seq<char> {
    trim(strip_hashes(t))
}

/// The entry that the state holds, its pending body lines closed.
pub open spec fn current_entry(st: PState) -> EntryV {
    EntryV { comment: st.comment, request: finalize(st.request, st.body).0, response_spec: st.response }
}

/// The request with `kv` added to the part that `sec` names.
pub open spec fn add_to_section(req: RequestV, sec: Section, kv: KeyValueV) -> RequestV {
    match sec {
        Section::Query => RequestV { query_params: req.query_params.push(kv), ..req },
        Section::Form => RequestV { form_params: req.form_params.push(kv), ..req },
        Section::Cookies => RequestV { cookies: req.cookies.push(kv), ..req },
        Section::Options => RequestV { options: req.options.push(kv), ..req },
        _ => req,
    }
}

pub open spec fn add_response_header(resp: Option<ResponseSpecV>, kv: KeyValueV) -> Option<ResponseSpecV> {
    match resp {
        Some(r) => Some(ResponseSpecV { headers: r.headers.push(kv), ..r }),
        None => None,
    }
}

/// The state after reading one line; `t` is the line trimmed.
pub open spec fn step(st: PState, line: Seq<char>) -> PState {
    let t = trim(line);
    if t.len() == 0 {
        if st.state == State::RequestBody {
            PState { body: st.body.push(seq![]), ..st }
        } else {
            st
        }
    } else if t[0] == '#' {
        let c = comment_text(t);
        PState {
            comment: Some(
                match st.comment {
                    Some(x) => x + seq!['\n'] + c,
                    None => c,
                },
            ),
            ..st
        }
    } else if is_request_line(t) {
        let base = if st.has_request {
            PState {
                entries: st.entries.push(current_entry(st)),
                comment: None,
                request: empty_request(),
                response: None,
                body: seq![],
                ..st
            }
        } else {
            st
        };
        let (m, url) = request_line_of(t);
        PState {
            request: RequestV { method: m, url: url, ..base.request },
            has_request: true,
            state: State::RequestHeaders,
            ..base
        }
    } else if is_response_line(t) {
        let (req, bl) = finalize(st.request, st.body);
        PState {
            request: req,
            body: bl,
            response: Some(empty_response(response_status_of(t))),
            state: State::ResponseHeaders,
            ..st
        }
    } else if section_of(t) is Some {
        let sec = section_of(t).unwrap();
        let (req, bl) = finalize(st.request, st.body);
        if sec == Section::Captures || sec == Section::Asserts {
            PState {
                request: req,
                body: bl,
                response: if st.response is None {
                    Some(empty_response(None))
                } else {
                    st.response
                },
                state: State::ResponseSection(sec),
                ..st
            }
        } else {
            PState { request: req, body: bl, state: State::RequestSection(sec), ..st }
        }
    } else {
        match st.state {
            State::Start => st,
            State::RequestHeaders => match key_value_of(t) {
                Some(kv) => PState {
                    request: RequestV { headers: st.request.headers.push(kv), ..st.request },
                    ..st
                },
                None => PState { state: State::RequestBody, body: st.body.push(line), ..st },
            },
            State::RequestSection(sec) => match key_value_of(t) {
                Some(kv) => PState { request: add_to_section(st.request, sec, kv), ..st },
                None => st,
            },
            State::RequestBody => PState { body: st.body.push(line), ..st },
            State::ResponseHeaders => match key_value_of(t) {
                Some(kv) => PState { response: add_response_header(st.response, kv), ..st },
                None => st,
            },
            State::ResponseSection(sec) => if sec == Section::Captures {
                match (capture_of(t), st.response) {
                    (Some(c), Some(r)) => PState {
                        response: Some(ResponseSpecV { captures: r.captures.push(c), ..r }),
                        ..st
                    },
                    _ => st,
                }
            } else if sec == Section::Asserts {
                match (assert_of(t), st.response) {
                    (Some(a), Some(r)) => PState {
                        response: Some(ResponseSpecV { asserts: r.asserts.push(a), ..r }),
                        ..st
                    },
                    _ => st,
                }
            } else {
                match key_value_of(t) {
                    Some(kv) => PState { response: add_response_header(st.response, kv), ..st },
                    None => st,
                }
            },
        }
    }
}

/// The state after reading the lines in order.
pub open spec fn run_lines(ls: Seq<Seq<char>>) -> PState
    decreases ls.len(),
{
    if ls.len() == 0 {
        initial_pstate()
    } else {
        step(run_lines(ls.drop_last()), ls.last())
    }
}

/// The entries of a finished read: those read so far and the one being read, if any.
pub open spec fn finish(st: PState) -> Seq<EntryV> {
    if st.has_request {
        st.entries.push(current_entry(st))
    } else {
        st.entries
    }
}

/// The Hurl file that `input` holds.
pub open spec fn parse_spec(input: Seq<char>) -> HurlFileV {
    HurlFileV { path: None, entries: finish(run_lines(lines(input))) }
}

struct ParserState {
    entries: Vec<Entry>,
    state: State,
    comment: Option<Vec<char>>,
    request: Request,
    response: Option<ResponseSpec>,
    body: Vec<Vec<char>>,
    has_request: bool,
}

impl View for ParserState {
    type V = PState;

    closed spec fn view(&self) -> PState {
        PState {
            entries: self.entries.deep_view(),
            state: self.state,
            comment: match self.comment {
                Some(c) => Some(c@),
                None => None,
            },
            request: self.request@,
            response: self.response.deep_view(),
            body: char_views(self.body@),
            has_request: self.has_request,
        }
    }
}

fn comment_text_exec(t: &[char]) -> (r: Vec<char>)
    ensures
        r@ == comment_text(t@),
{
    let mut i: usize = 0;
    let n = t.len();
    proof {
        assert(t@.skip(0) =~= t@);
    }
    while i < n && t[i] == '#'
        invariant
            i <= n == t@.len(),
            strip_hashes(t@) == strip_hashes(t@.skip(i as int)),
        decreases n - i,
    {
        proof {
            assert(t@.skip(i as int).drop_first() =~= t@.skip(i + 1));
        }
        i = i + 1;
    }
    let rest = &t[i..n];
    proof {
        assert(rest@ =~= t@.skip(i as int));
        if rest@.len() > 0 {
            assert(rest@[0] == t@[i as int]);
        }
    }
    vstd::slice::slice_to_vec(trim_chars(rest))
}

/// Closes the entry the state holds and adds it to the entries.
fn push_current_entry(st: &mut ParserState)
    ensures
        final(st)@.entries == old(st)@.entries.push(current_entry(old(st)@)),
        final(st)@.body == finalize(old(st)@.request, old(st)@.body).1,
        final(st)@.state == old(st)@.state,
        final(st)@.has_request == old(st)@.has_request,
        final(st)@.comment is None,
        final(st)@.response is None,
        final(st)@.request == empty_request(),
{
    finalize_body(&mut st.request, &mut st.body);
    let comment = match st.comment.take() {
        Some(c) => Some(string_from_chars(c.as_slice())),
        None => None,
    };
    let mut request = Request::default();
    std::mem::swap(&mut request, &mut st.request);
    let response = st.response.take();
    let entry = Entry { comment, request, response_spec: response };
    let ghost before = st.entries.deep_view();
    st.entries.push(entry);
    proof {
        assert(st.entries.deep_view() =~= before.push(entry@));
        assert(entry@ == current_entry(old(st)@));
    }
}

fn step_exec(st: &mut ParserState, line: &[char])
    ensures
        final(st)@ == step(old(st)@, line@),
{
    let t = trim_chars(line);
    if t.len() == 0 {
        if st.state == State::RequestBody {
            let ghost b = char_views(st.body@);
            st.body.push(Vec::new());
            proof {
                assert(char_views(st.body@) =~= b.push(seq![]));
            }
        }
        return;
    }
    if t[0] == '#' {
        let c = comment_text_exec(t);
        match st.comment.take() {
            Some(mut x) => {
                let ghost x0 = x@;
                x.push('\n');
                push_all(&mut x, c.as_slice());
                proof {
                    assert(x@ =~= x0 + seq!['\n'] + c@);
                }
                st.comment = Some(x);
            },
            None => {
                st.comment = Some(c);
            },
        }
        return;
    }
    if is_request_line_exec(t) {
        if st.has_request {
            push_current_entry(st);
            st.body = Vec::new();
            proof {
                assert(char_views(st.body@) =~= Seq::<Seq<char>>::empty());
            }
        }
        let (m, url) = parse_request_line(t);
        st.request.method = m;
        st.request.url = url;
        st.has_request = true;
        st.state = State::RequestHeaders;
        return;
    }
    if is_response_line_exec(t) {
        finalize_body(&mut st.request, &mut st.body);
        let status = parse_response_line(t);
        st.response = Some(new_response(status));
        st.state = State::ResponseHeaders;
        return;
    }
    if let Some(sec) = parse_section_header(t) {
        finalize_body(&mut st.request, &mut st.body);
        if sec == Section::Captures || sec == Section::Asserts {
            if st.response.is_none() {
                st.response = Some(new_response(None));
            }
            st.state = State::ResponseSection(sec);
        } else {
            st.state = State::RequestSection(sec);
        }
        return;
    }
    match st.state {
        State::Start => {},
        State::RequestHeaders => {
            if let Some(kv) = parse_key_value(t) {
                let ghost h = st.request.headers.deep_view();
                st.request.headers.push(kv);
                proof {
                    assert(st.request.headers.deep_view() =~= h.push(kv@));
                }
            } else {
                st.state = State::RequestBody;
                let ghost b = char_views(st.body@);
                st.body.push(vstd::slice::slice_to_vec(line));
                proof {
                    assert(char_views(st.body@) =~= b.push(line@));
                }
            }
        },
        State::RequestSection(sec) => {
            if let Some(kv) = parse_key_value(t) {
                match sec {
                    Section::Query => {
                        let ghost h = st.request.query_params.deep_view();
                        st.request.query_params.push(kv);
                        proof {
                            assert(st.request.query_params.deep_view() =~= h.push(kv@));
                        }
                    },
                    Section::Form => {
                        let ghost h = st.request.form_params.deep_view();
                        st.request.form_params.push(kv);
                        proof {
                            assert(st.request.form_params.deep_view() =~= h.push(kv@));
                        }
                    },
                    Section::Cookies => {
                        let ghost h = st.request.cookies.deep_view();
                        st.request.cookies.push(kv);
                        proof {
                            assert(st.request.cookies.deep_view() =~= h.push(kv@));
                        }
                    },
                    Section::Options => {
                        let ghost h = st.request.options.deep_view();
                        st.request.options.push(kv);
                        proof {
                            assert(st.request.options.deep_view() =~= h.push(kv@));
                        }
                    },
                    _ => {},
                }
            }
        },
        State::RequestBody => {
            let ghost b = char_views(st.body@);
            st.body.push(vstd::slice::slice_to_vec(line));
            proof {
                assert(char_views(st.body@) =~= b.push(line@));
            }
        },
        State::ResponseHeaders => {
            if let Some(kv) = parse_key_value(t) {
                add_header_exec(&mut st.response, kv);
            }
        },
        State::ResponseSection(sec) => {
            if sec == Section::Captures {
                if let Some(c) = parse_capture(t) {
                    if let Some(mut r) = st.response.take() {
                        let ghost h = r.captures.deep_view();
                        r.captures.push(c);
                        proof {
                            assert(r.captures.deep_view() =~= h.push(c@));
                        }
                        st.response = Some(r);
                    }
                }
            } else if sec == Section::Asserts {
                if let Some(a) = parse_assert(t) {
                    if let Some(mut r) = st.response.take() {
                        let ghost h = r.asserts.deep_view();
                        r.asserts.push(a);
                        proof {
                            assert(r.asserts.deep_view() =~= h.push(a@));
                        }
                        st.response = Some(r);
                    }
                }
            } else {
                if let Some(kv) = parse_key_value(t) {
                    add_header_exec(&mut st.response, kv);
                }
            }
        },
    }
}

fn new_response(status: Option<u16>) -> (r: ResponseSpec)
    ensures
        r@ == empty_response(status),
{
    let r = ResponseSpec { status, headers: Vec::new(), captures: Vec::new(), asserts: Vec::new() };
    proof {
        assert(r.headers.deep_view() =~= Seq::<KeyValueV>::empty());
        assert(r.captures.deep_view() =~= Seq::<CaptureV>::empty());
        assert(r.asserts.deep_view() =~= Seq::<AssertV>::empty());
    }
    r
}

fn add_header_exec(resp: &mut Option<ResponseSpec>, kv: KeyValue)
    ensures
        final(resp).deep_view() == add_response_header(old(resp).deep_view(), kv@),
{
    if let Some(mut r) = resp.take() {
        let ghost h = r.headers.deep_view();
        r.headers.push(kv);
        proof {
            assert(r.headers.deep_view() =~= h.push(kv@));
        }
        *resp = Some(r);
    }
}

/// Reads a Hurl file: one entry per request line, with the headers, sections, body and
/// expected response that follow it.
pub fn parse(input: &str) -> (r: HurlFile)
    ensures
        r@ == parse_spec(input@),
{
    let ls = crate::text::lines_of(input);
    let mut st = ParserState {
        entries: Vec::new(),
        state: State::Start,
        comment: None,
        request: Request::default(),
        response: None,
        body: Vec::new(),
        has_request: false,
    };
    proof {
        assert(st.entries.deep_view() =~= Seq::<EntryV>::empty());
        assert(char_views(st.body@) =~= Seq::<Seq<char>>::empty());
        assert(st@ == initial_pstate());
    }
    let mut i: usize = 0;
    while i < ls.len()
        invariant
            i <= ls@.len(),
            char_views(ls@) == lines(input@),
            st@ == run_lines(char_views(ls@).take(i as int)),
        decreases ls.len() - i,
    {
        step_exec(&mut st, ls[i].as_slice());
        proof {
            let next = char_views(ls@).take(i + 1);
            assert(next.drop_last() =~= char_views(ls@).take(i as int));
            assert(next.last() == ls@[i as int]@);
        }
        i = i + 1;
    }
    proof {
        assert(char_views(ls@).take(ls@.len() as int) =~= char_views(ls@));
    }
    if st.has_request {
        push_current_entry(&mut st);
    }
    let r = HurlFile { path: None, entries: st.entries };
    r
}

} // verus!
