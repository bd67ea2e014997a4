//! Reading back what was written: for files whose entries hold a request (its line, headers,
//! query parameters, form parameters, cookies and options, no body) and at most an expected
//! response (its status, headers, captures and asserts, or, without status, captures and
//! asserts alone), and where only the first entry has a comment, parsing the serialized
//! text gives the file back.

use vstd::prelude::*;
use crate::model::{
    AssertV, CaptureV, EntryV, HurlFileV, KeyValueV, Method, QueryV, RequestV, ResponseSpecV, empty_request, method_name,
    method_named, lemma_method_name,
};
use crate::parser::{
    PState, State, current_entry, empty_response, finalize, finish, first_word, initial_pstate,
    is_request_line, is_response_line, key_value_of, parse_spec, request_line_of, response_status_of,
    run_lines, section_of, step, Section, add_to_section, capture_of, query_of, assert_of,
};
use crate::readback::{
    assert_line, lemma_assert_line_read, lemma_query_read, lemma_query_text_facts, line_assert, one_line_query,
    plain_query,
};
use crate::serializer::{
    asserts_block, asserts_text, captures_block, captures_text, entries_text, entry_text, kv_text, kvs_text, query_text,
    section_text, serialize_spec,
};
use crate::num::{all_digits, decimal, digit_char, digits_value, is_digit, parse_unsigned};
use crate::text::{
    find, find_from, find_ws_from, is_ws, lemma_find_from, lemma_find_ws_from, lemma_skip_ws_from, lines, lines_from, skip_ws_from,
    lemma_tokens_word, lemma_trim_plain,
    starts_with, strip_cr, tokens, tokens_from, trim, trim_end, trim_start, upper_text, ascii_upper,
    is_ascii_text,
};

verus! {

/// The lines, each followed by `\n`.
pub open spec fn terminated(ls: Seq<Seq<char>>) -> Seq<char>
    decreases ls.len(),
{
    if ls.len() == 0 {
        seq![]
    } else {
        terminated(ls.drop_last()) + ls.last() + seq!['\n']
    }
}

/// A line as `str::lines` can give it back: no `\n` inside, no `\r` at its end.
pub open spec fn plain_line(l: Seq<char>) -> bool {
    &&& forall|j: int| 0 <= j < l.len() ==> #[trigger] l[j] != '\n'
    &&& (l.len() > 0 ==> l.last() != '\r')
}

proof fn lemma_terminated_append(a: Seq<Seq<char>>, b: Seq<Seq<char>>)
    ensures
        terminated(a + b) == terminated(a) + terminated(b),
    decreases b.len(),
{
    if b.len() == 0 {
        assert(a + b =~= a);
        assert(terminated(a) + terminated(b) =~= terminated(a));
    } else {
        lemma_terminated_append(a, b.drop_last());
        assert((a + b).drop_last() =~= a + b.drop_last());
        assert((a + b).last() == b.last());
        assert(terminated(a + b) =~= terminated(a) + terminated(b));
    }
}

proof fn lemma_terminated_front(ls: Seq<Seq<char>>)
    requires
        ls.len() > 0,
    ensures
        terminated(ls) == ls[0] + seq!['\n'] + terminated(ls.drop_first()),
{
    let one = seq![ls[0]];
    lemma_terminated_append(one, ls.drop_first());
    assert(one + ls.drop_first() =~= ls);
    assert(one.drop_last() =~= Seq::<Seq<char>>::empty());
    assert(terminated(one.drop_last()) =~= Seq::<char>::empty());
    assert(one.last() == ls[0]);
    assert(terminated(one) =~= ls[0] + seq!['\n']);
}

proof fn lemma_find_newline(s: Seq<char>, i: int, k: int)
    requires
        0 <= i <= k < s.len(),
        s[k] == '\n',
        forall|j: int| i <= j < k ==> #[trigger] s[j] != '\n',
    ensures
        find_from(s, '\n', i) == Some(k),
    decreases k - i,
{
    if i < k {
        lemma_find_newline(s, i + 1, k);
    }
}

proof fn lemma_lines_from_terminated(s: Seq<char>, i: int, ls: Seq<Seq<char>>)
    requires
        0 <= i <= s.len(),
        s.subrange(i, s.len() as int) == terminated(ls),
        forall|j: int| 0 <= j < ls.len() ==> plain_line(#[trigger] ls[j]),
    ensures
        lines_from(s, i) == ls,
    decreases ls.len(),
{
    if ls.len() == 0 {
        assert(s.subrange(i, s.len() as int).len() == 0);
    } else {
        lemma_terminated_front(ls);
        let l = ls[0];
        let k = i + l.len();
        let rest = s.subrange(i, s.len() as int);
        assert(rest =~= l + seq!['\n'] + terminated(ls.drop_first()));
        assert forall|j: int| i <= j < k implies #[trigger] s[j] != '\n' by {
            assert(s[j] == rest[j - i]);
            assert(rest[j - i] == l[j - i]);
            assert(plain_line(ls[0]));
        }
        assert(s[k] == rest[l.len() as int]);
        lemma_find_newline(s, i, k);
        assert(s.subrange(i, k) =~= l);
        assert(plain_line(ls[0]));
        assert(strip_cr(l) == l);
        let t = terminated(ls.drop_first());
        assert(rest.len() == l.len() + 1 + t.len());
        assert forall|j: int| 0 <= j < t.len() implies s.subrange(k + 1, s.len() as int)[j] == t[j] by {
            assert(s[k + 1 + j] == rest[l.len() + 1 + j]);
        }
        assert(s.subrange(k + 1, s.len() as int) =~= t);
        assert forall|j: int| 0 <= j < ls.drop_first().len() implies plain_line(#[trigger] ls.drop_first()[j]) by {
            assert(ls.drop_first()[j] == ls[j + 1]);
        }
        lemma_lines_from_terminated(s, k + 1, ls.drop_first());
        assert(lines_from(s, i) =~= seq![l] + ls.drop_first());
        assert(seq![l] + ls.drop_first() =~= ls);
    }
}

/// The lines of a text of `\n`-terminated plain lines are those lines.
pub proof fn lemma_lines_of_terminated(ls: Seq<Seq<char>>)
    requires
        forall|j: int| 0 <= j < ls.len() ==> plain_line(#[trigger] ls[j]),
    ensures
        lines(terminated(ls)) == ls,
{
    let s = terminated(ls);
    assert(s.subrange(0, s.len() as int) =~= s);
    lemma_lines_from_terminated(s, 0, ls);
}

/// The state after reading the lines in order from `st`.
pub open spec fn run_from(st: PState, ls: Seq<Seq<char>>) -> PState
    decreases ls.len(),
{
    if ls.len() == 0 {
        st
    } else {
        step(run_from(st, ls.drop_last()), ls.last())
    }
}

proof fn lemma_run_lines_append(a: Seq<Seq<char>>, b: Seq<Seq<char>>)
    ensures
        run_lines(a + b) == run_from(run_lines(a), b),
    decreases b.len(),
{
    if b.len() == 0 {
        assert(a + b =~= a);
    } else {
        lemma_run_lines_append(a, b.drop_last());
        assert((a + b).drop_last() =~= a + b.drop_last());
        assert((a + b).last() == b.last());
    }
}

proof fn lemma_run_from_append(st: PState, a: Seq<Seq<char>>, b: Seq<Seq<char>>)
    ensures
        run_from(st, a + b) == run_from(run_from(st, a), b),
    decreases b.len(),
{
    if b.len() == 0 {
        assert(a + b =~= a);
    } else {
        lemma_run_from_append(st, a, b.drop_last());
        assert((a + b).drop_last() =~= a + b.drop_last());
        assert((a + b).last() == b.last());
    }
}

/// The decimal digits of a number read back give the number.
pub proof fn lemma_decimal_digits(n: nat)
    ensures
        decimal(n).len() > 0,
        all_digits(decimal(n)),
        digits_value(decimal(n)) == n,
    decreases n,
{
    let d = decimal(n);
    if n < 10 {
        assert(digit_char(n as int) as int == n + '0' as int);
        assert(d[0] == digit_char(n as int));
        assert(d.drop_last() =~= Seq::<char>::empty());
        assert(digits_value(d.drop_last()) == 0);
        assert(d.last() == d[0]);
        assert(all_digits(d));
    } else {
        lemma_decimal_digits(n / 10);
        let r = (n % 10) as int;
        assert(digit_char(r) as int == r + '0' as int);
        assert(d.drop_last() =~= decimal(n / 10));
        assert forall|i: int| 0 <= i < d.len() implies is_digit(#[trigger] d[i]) by {
            if i < d.len() - 1 {
                assert(d[i] == decimal(n / 10)[i]);
            }
        }
        assert(d.last() == digit_char(r));
        assert(digits_value(d) == digits_value(d.drop_last()) * 10 + (d.last() as int - '0' as int));
        assert(digits_value(d) == digits_value(decimal(n / 10)) * 10 + r);
        assert((n / 10) * 10 + n % 10 == n);
    }
}

/// `str::parse` reads back the decimal digits of a `u16`.
pub proof fn lemma_parse_decimal(n: u16)
    ensures
        parse_unsigned(decimal(n as nat), u16::MAX as int) == Some(n as int),
{
    lemma_decimal_digits(n as nat);
    let d = decimal(n as nat);
    assert(is_digit(d[0]));
}

/// Pairs that read back as written: each of them as `simple_header` says.
pub open spec fn simple_pairs(kvs: Seq<KeyValueV>) -> bool {
    forall|i: int| 0 <= i < kvs.len() ==> simple_header(#[trigger] kvs[i])
}

/// A comment that reads back as written: no line break, and, unless it is empty, no white
/// space at either end and no `#` first.
pub open spec fn simple_comment(c: Seq<char>) -> bool {
    &&& forall|j: int| 0 <= j < c.len() ==> #[trigger] c[j] != '\n'
    &&& c.len() > 0 ==> c[0] != '#' && !is_ws(c[0]) && !is_ws(c.last())
}

/// The entries after the first have no comment: a comment line is read as the comment of
/// the entry being read, which is the one before it.
pub open spec fn later_without_comment(es: Seq<EntryV>) -> bool {
    forall|i: int| 1 <= i < es.len() ==> (#[trigger] es[i]).comment is None
}

/// An entry that reads back as written: a comment as `simple_comment` says, if any; a
/// request with a method, a URL (without line breaks and, unless empty, with no white
/// space at either end), headers, query parameters, form parameters, cookies and options,
/// and no body, every pair as `simple_header` says; a response, if any, as
/// `simple_response` says.
pub open spec fn simple_entry(e: EntryV) -> bool {
    &&& match e.comment {
        None => true,
        Some(c) => simple_comment(c),
    }
    &&& e.request.body is None
    &&& e.request.url.len() > 0 ==> !is_ws(e.request.url[0]) && !is_ws(e.request.url.last())
    &&& forall|j: int| 0 <= j < e.request.url.len() ==> #[trigger] e.request.url[j] != '\n'
    &&& simple_pairs(e.request.headers)
    &&& simple_pairs(e.request.query_params)
    &&& simple_pairs(e.request.form_params)
    &&& simple_pairs(e.request.cookies)
    &&& simple_pairs(e.request.options)
    &&& match e.response_spec {
        None => true,
        Some(r) => simple_response(r),
    }
}

/// The request of an entry as its request line gives it.
pub open spec fn bare_request(e: EntryV) -> RequestV {
    RequestV { method: e.request.method, url: e.request.url, ..empty_request() }
}

/// The request line of an entry.
pub open spec fn request_line(e: EntryV) -> Seq<char> {
    method_name(e.request.method) + seq![' '] + e.request.url
}

/// The status line of a status.
pub open spec fn status_line(s: u16) -> Seq<char> {
    seq!['H', 'T', 'T', 'P', ' '] + decimal(s as nat)
}

/// The lines of a request: the request line, the headers, then each section that holds
/// pairs.
pub open spec fn request_lines(e: EntryV) -> Seq<Seq<char>> {
    let r = e.request;
    seq![request_line(e)] + header_lines(r.headers) + section_lines(Section::Query, r.query_params)
        + section_lines(Section::Form, r.form_params) + section_lines(Section::Cookies, r.cookies)
        + section_lines(Section::Options, r.options)
}

/// The state that reading the lines of a request ends in: the last section written, if any.
pub open spec fn request_end_state(r: RequestV) -> State {
    if r.options.len() > 0 {
        State::RequestSection(Section::Options)
    } else if r.cookies.len() > 0 {
        State::RequestSection(Section::Cookies)
    } else if r.form_params.len() > 0 {
        State::RequestSection(Section::Form)
    } else if r.query_params.len() > 0 {
        State::RequestSection(Section::Query)
    } else {
        State::RequestHeaders
    }
}

/// The lines of a response.
pub open spec fn response_lines(r: ResponseSpecV) -> Seq<Seq<char>> {
    status_lines(r) + capture_section_lines(r.captures) + assert_section_lines(r.asserts)
}

/// The status line of a response and its headers; nothing for a response without status.
pub open spec fn status_lines(r: ResponseSpecV) -> Seq<Seq<char>> {
    match r.status {
        Some(s) => seq![status_line(s)] + header_lines(r.headers),
        None => seq![],
    }
}

/// A response that reads back as written: a status, headers, captures and asserts as
/// `simple_header`, `simple_capture` and `line_assert` say; or, without status, no headers
/// and some captures or asserts.
pub open spec fn simple_response(r: ResponseSpecV) -> bool {
    &&& r.status is Some || (r.headers.len() == 0 && (r.captures.len() > 0 || r.asserts.len() > 0))
    &&& simple_pairs(r.headers)
    &&& forall|i: int| 0 <= i < r.captures.len() ==> simple_capture(#[trigger] r.captures[i])
    &&& forall|i: int| 0 <= i < r.asserts.len() ==> line_assert(#[trigger] r.asserts[i])
}

/// The state that reading the lines of a response ends in: its last section, if any.
pub open spec fn response_end_state(r: ResponseSpecV) -> State {
    if r.asserts.len() > 0 {
        State::ResponseSection(Section::Asserts)
    } else if r.captures.len() > 0 {
        State::ResponseSection(Section::Captures)
    } else {
        State::ResponseHeaders
    }
}

/// The state that reading the lines of an entry ends in.
pub open spec fn entry_end_state(e: EntryV) -> State {
    match e.response_spec {
        Some(r) => response_end_state(r),
        None => request_end_state(e.request),
    }
}

/// The line of a comment.
pub open spec fn comment_line_of(c: Seq<char>) -> Seq<char> {
    seq!['#', ' '] + c
}

/// The lines of the comment of an entry: none without one.
pub open spec fn comment_lines(c: Option<Seq<char>>) -> Seq<Seq<char>> {
    match c {
        Some(c) => seq![comment_line_of(c)],
        None => seq![],
    }
}

/// The lines of the request and the response of an entry.
pub open spec fn exchange_lines(e: EntryV) -> Seq<Seq<char>> {
    match e.response_spec {
        Some(r) => request_lines(e) + response_lines(r),
        None => request_lines(e),
    }
}

/// The lines that a simple entry is written as.
pub open spec fn entry_lines(e: EntryV) -> Seq<Seq<char>> {
    comment_lines(e.comment) + exchange_lines(e)
}

/// The lines that simple entries are written as, an empty line between two of them.
pub open spec fn file_lines(es: Seq<EntryV>) -> Seq<Seq<char>>
    decreases es.len(),
{
    if es.len() == 0 {
        seq![]
    } else if es.len() == 1 {
        entry_lines(es[0])
    } else {
        file_lines(es.drop_last()) + seq![seq![]] + entry_lines(es.last())
    }
}

proof fn lemma_one_line(l: Seq<char>)
    ensures
        terminated(seq![l]) == l + seq!['\n'],
{
    assert(seq![l].drop_last() =~= Seq::<Seq<char>>::empty());
    assert(terminated(seq![l].drop_last()) =~= Seq::<char>::empty());
    assert(seq![l].last() == l);
    assert(terminated(seq![l]) =~= l + seq!['\n']);
}

proof fn lemma_request_text(e: EntryV)
    requires
        simple_entry(e),
    ensures
        crate::serializer::request_text(e.request) == terminated(request_lines(e)),
{
    reveal_strlit(" ");
    reveal_strlit("\n");
    let r = e.request;
    let l1 = request_line(e);
    lemma_one_line(l1);
    lemma_kvs_text(r.headers);
    let p0 = seq![l1] + header_lines(r.headers);
    lemma_terminated_append(seq![l1], header_lines(r.headers));
    let lq = section_lines(Section::Query, r.query_params);
    let lf = section_lines(Section::Form, r.form_params);
    let lc = section_lines(Section::Cookies, r.cookies);
    let lo = section_lines(Section::Options, r.options);
    lemma_section_text(Section::Query, r.query_params);
    lemma_section_text(Section::Form, r.form_params);
    lemma_section_text(Section::Cookies, r.cookies);
    lemma_section_text(Section::Options, r.options);
    lemma_terminated_append(p0, lq);
    lemma_terminated_append(p0 + lq, lf);
    lemma_terminated_append(p0 + lq + lf, lc);
    lemma_terminated_append(p0 + lq + lf + lc, lo);
    assert(crate::serializer::optional_body_text(r.body) =~= Seq::<char>::empty());
    assert(terminated(p0) =~= method_name(r.method) + " "@ + r.url + "\n"@ + kvs_text(r.headers));
    assert(crate::serializer::request_text(r) =~= terminated(request_lines(e)));
}

proof fn lemma_entry_text(e: EntryV)
    requires
        simple_entry(e),
    ensures
        entry_text(e) == terminated(entry_lines(e)),
{
    reveal_strlit("HTTP ");
    reveal_strlit("\n");
    reveal_strlit("# ");
    lemma_request_text(e);
    match e.response_spec {
        Some(r) => {
            lemma_response_text(r);
            lemma_terminated_append(request_lines(e), response_lines(r));
        },
        None => {},
    }
    let x = crate::serializer::request_text(e.request) + crate::serializer::optional_response_text(e.response_spec);
    assert(x =~= terminated(exchange_lines(e)));
    lemma_terminated_append(comment_lines(e.comment), exchange_lines(e));
    match e.comment {
        Some(c) => {
            lemma_one_line(comment_line_of(c));
            assert(crate::serializer::comment_line(e.comment) =~= terminated(comment_lines(e.comment)));
        },
        None => {
            assert(comment_lines(e.comment) =~= Seq::<Seq<char>>::empty());
            assert(crate::serializer::comment_line(e.comment) =~= terminated(comment_lines(e.comment)));
        },
    }
    assert(entry_text(e) =~= terminated(entry_lines(e)));
}

proof fn lemma_entries_text(es: Seq<EntryV>)
    requires
        forall|i: int| 0 <= i < es.len() ==> simple_entry(#[trigger] es[i]),
    ensures
        entries_text(es) == terminated(file_lines(es)),
    decreases es.len(),
{
    if es.len() == 1 {
        lemma_entry_text(es[0]);
    } else if es.len() > 1 {
        let d = es.drop_last();
        assert forall|i: int| 0 <= i < d.len() implies simple_entry(#[trigger] d[i]) by {
            assert(d[i] == es[i]);
        }
        lemma_entries_text(d);
        lemma_entry_text(es.last());
        assert(simple_entry(es[es.len() - 1]));
        lemma_terminated_append(file_lines(d) + seq![seq![]], entry_lines(es.last()));
        lemma_terminated_append(file_lines(d), seq![seq![]]);
        assert(seq![Seq::<char>::empty()].drop_last() =~= Seq::<Seq<char>>::empty());
        assert(terminated(seq![Seq::<char>::empty()].drop_last()) =~= Seq::<char>::empty());
        assert(terminated(seq![Seq::<char>::empty()]) =~= seq!['\n']);
        reveal_strlit("\n");
        assert(entries_text(es) =~= terminated(file_lines(es)));
    }
}

/// The state after the request line of `e`: the entry read so far (if any) is kept, and
/// the request of `e` is the one being read.
pub open spec fn after_request(st: PState, e: EntryV) -> PState {
    PState {
        entries: if st.has_request { st.entries.push(current_entry(st)) } else { st.entries },
        state: State::RequestHeaders,
        comment: if st.has_request { None } else { st.comment },
        request: bare_request(e),
        response: None,
        body: seq![],
        has_request: true,
    }
}

proof fn lemma_step_request(st: PState, e: EntryV)
    requires
        simple_entry(e),
        st.body == Seq::<Seq<char>>::empty(),
        !st.has_request ==> st.request == empty_request() && st.response is None,
    ensures
        step(st, request_line(e)) == after_request(st, e),
{
    let m = e.request.method;
    let name = method_name(m);
    let url = e.request.url;
    let line = request_line(e);
    lemma_method_name(m);
    let n = name.len() as int;
    assert(line[0] == name[0]);
    if url.len() > 0 {
        assert(line.last() == url.last());
        lemma_trim_plain(line);
    } else {
        assert(trim_start(line) == line);
        assert(line.drop_last() =~= name);
        assert(name[n - 1] == name.last());
        lemma_trim_plain(name);
        assert(trim_end(line) == name);
    }
    let t = trim(line);
    assert(t == (if url.len() > 0 { line } else { name }));
    assert(t[0] == name[0]);
    assert(t.len() > n ==> t[n] == ' ');
    assert forall|j: int| 0 <= j < n implies !is_ws(#[trigger] t[j]) by {
        assert(t[j] == name[j]);
    }
    assert(n < t.len() ==> is_ws(t[n]));
    lemma_tokens_word(t, 0, n);
    assert(t.subrange(0, n) =~= name);
    assert(first_word(t) == name);
    assert(is_request_line(t));
    lemma_find_ws_from(t, 0);
    if url.len() > 0 {
        assert(find_ws_from(t, 0) == Some(n)) by {
            match find_ws_from(t, 0) {
                Some(w) => {
                    if w < n {
                        assert(!is_ws(t[w]));
                    }
                },
                None => {
                    assert(!is_ws(t[n]));
                },
            }
        }
        assert(t.take(n) =~= name);
        assert(t.skip(n + 1) =~= url);
        lemma_trim_plain(url);
    } else {
        assert(find_ws_from(t, 0) is None) by {
            if let Some(w) = find_ws_from(t, 0) {
                assert(!is_ws(t[w]));
            }
        }
    }
    assert(request_line_of(t) == (m, url));
    assert(step(st, request_line(e)) =~= after_request(st, e));
}

proof fn lemma_step_status(st: PState, s: u16)
    requires
        st.body == Seq::<Seq<char>>::empty(),
    ensures
        step(st, status_line(s)) == (PState {
            response: Some(empty_response(Some(s))),
            state: State::ResponseHeaders,
            ..st
        }),
{
    let t = status_line(s);
    let d = decimal(s as nat);
    lemma_decimal_digits(s as nat);
    assert(t[0] == 'H');
    assert(t.last() == d.last());
    assert(!is_ws(d.last())) by {
        assert(crate::num::is_digit(d[d.len() - 1]));
    }
    lemma_trim_plain(t);
    assert forall|j: int| 0 <= j < 4 implies !is_ws(#[trigger] t[j]) by {}
    assert(is_ws(t[4]));
    lemma_tokens_word(t, 0, 4);
    let http = seq!['H', 'T', 'T', 'P'];
    assert(t.subrange(0, 4) =~= http);
    assert(first_word(t) == http);
    assert(is_ascii_text(http));
    assert(http.map_values(|c: char| ascii_upper(c)) =~= http);
    assert(upper_text(http) == http);
    assert(method_named(http) is None) by {
        assert(http != method_name(Method::Get));
        assert(http[1] != method_name(Method::Head)[1]);
        assert(http != method_name(Method::Post));
        assert(http != method_name(Method::Put));
        assert(http != method_name(Method::Delete));
        assert(http != method_name(Method::Patch));
        assert(http != method_name(Method::Options));
    }
    assert(!is_request_line(t));
    reveal_strlit("HTTP ");
    assert(t.subrange(0, 5) =~= "HTTP "@);
    assert(is_response_line(t));
    let len = t.len() as int;
    assert forall|j: int| 5 <= j < len implies !is_ws(#[trigger] t[j]) by {
        assert(t[j] == d[j - 5]);
        assert(crate::num::is_digit(d[j - 5]));
    }
    lemma_tokens_word(t, 5, len);
    assert(skip_ws_from(t, 5) == 5);
    assert(skip_ws_from(t, 4) == 5);
    lemma_find_ws_from(t, 5);
    assert(find_ws_from(t, 5) is None);
    assert(tokens_from(t, 4) == seq![t.subrange(5, len)] + tokens_from(t, len));
    assert(tokens_from(t, len) =~= Seq::<Seq<char>>::empty());
    assert(t.subrange(5, len) =~= d);
    assert(tokens(t) =~= seq![http, d]);
    lemma_parse_decimal(s);
    assert(response_status_of(t) == Some(s));
    assert(finalize(st.request, st.body) == (st.request, st.body));
    assert(step(st, status_line(s)) =~= PState {
        response: Some(empty_response(Some(s))),
        state: State::ResponseHeaders,
        ..st
    });
}

/// The state after the lines of a simple entry.
pub open spec fn after_entry(st: PState, e: EntryV) -> PState {
    PState {
        request: e.request,
        response: e.response_spec,
        state: entry_end_state(e),
        comment: e.comment,
        ..after_request(st, e)
    }
}

proof fn lemma_run_one(st: PState, l: Seq<char>)
    ensures
        run_from(st, seq![l]) == step(st, l),
{
    let one = seq![l];
    assert(one.drop_last() =~= Seq::<Seq<char>>::empty());
    assert(run_from(st, one.drop_last()) == st);
    assert(one.last() == l);
}

proof fn lemma_request_lines_run(st: PState, e: EntryV)
    requires
        simple_entry(e),
        st.body == Seq::<Seq<char>>::empty(),
        !st.has_request ==> st.request == empty_request() && st.response is None,
    ensures
        run_from(st, request_lines(e)) == (PState {
            request: e.request,
            state: request_end_state(e.request),
            ..after_request(st, e)
        }),
{
    let r = e.request;
    lemma_step_request(st, e);
    let l1 = request_line(e);
    lemma_run_one(st, l1);
    let a = after_request(st, e);
    lemma_run_request_headers(a, r.headers);
    let p0 = seq![l1] + header_lines(r.headers);
    lemma_run_from_append(st, seq![l1], header_lines(r.headers));
    assert(bare_request(e).headers + r.headers =~= r.headers);
    let s0 = PState { request: RequestV { headers: r.headers, ..bare_request(e) }, ..a };
    assert(run_from(st, p0) == s0);
    // the query parameters
    let q = r.query_params;
    lemma_run_section(s0, Section::Query, q);
    let p1 = p0 + section_lines(Section::Query, q);
    lemma_run_from_append(st, p0, section_lines(Section::Query, q));
    assert(Seq::<KeyValueV>::empty() + q =~= q);
    let s1 = after_section(s0, Section::Query, q);
    assert(s1.request == RequestV { query_params: q, ..s0.request });
    // the form parameters
    let f = r.form_params;
    lemma_run_section(s1, Section::Form, f);
    let p2 = p1 + section_lines(Section::Form, f);
    lemma_run_from_append(st, p1, section_lines(Section::Form, f));
    assert(Seq::<KeyValueV>::empty() + f =~= f);
    let s2 = after_section(s1, Section::Form, f);
    assert(s2.request == RequestV { form_params: f, ..s1.request });
    // the cookies
    let c = r.cookies;
    lemma_run_section(s2, Section::Cookies, c);
    let p3 = p2 + section_lines(Section::Cookies, c);
    lemma_run_from_append(st, p2, section_lines(Section::Cookies, c));
    assert(Seq::<KeyValueV>::empty() + c =~= c);
    let s3 = after_section(s2, Section::Cookies, c);
    assert(s3.request == RequestV { cookies: c, ..s2.request });
    // the options
    let o = r.options;
    lemma_run_section(s3, Section::Options, o);
    lemma_run_from_append(st, p3, section_lines(Section::Options, o));
    assert(Seq::<KeyValueV>::empty() + o =~= o);
    let s4 = after_section(s3, Section::Options, o);
    assert(s4.request == RequestV { options: o, ..s3.request });
    assert(s4.request == r);
    assert(p3 + section_lines(Section::Options, o) == request_lines(e));
}

proof fn lemma_response_lines_run(b: PState, r: ResponseSpecV)
    requires
        b.body == Seq::<Seq<char>>::empty(),
        b.response is None,
        simple_response(r),
    ensures
        run_from(b, response_lines(r)) == (PState { response: Some(r), state: response_end_state(r), ..b }),
{
    let p0 = status_lines(r);
    let r0 = ResponseSpecV { status: r.status, headers: r.headers, captures: seq![], asserts: seq![] };
    let c0 = match r.status {
        Some(s1) => PState { response: Some(r0), state: State::ResponseHeaders, ..b },
        None => b,
    };
    match r.status {
        Some(s1) => {
            let l2 = status_line(s1);
            lemma_step_status(b, s1);
            lemma_run_one(b, l2);
            let c = PState { response: Some(empty_response(Some(s1))), state: State::ResponseHeaders, ..b };
            lemma_run_response_headers(c, r.headers);
            lemma_run_from_append(b, seq![l2], header_lines(r.headers));
            assert(empty_response(Some(s1)).headers + r.headers =~= r.headers);
            assert(run_from(b, p0) == c0);
        },
        None => {
            assert(p0 =~= Seq::<Seq<char>>::empty());
            assert(run_from(b, p0) == c0);
            assert(r.headers =~= Seq::<KeyValueV>::empty());
            assert(empty_response(None) == r0);
        },
    }
    // the captures
    lemma_run_capture_section(c0, r.captures);
    let p1 = p0 + capture_section_lines(r.captures);
    lemma_run_from_append(b, p0, capture_section_lines(r.captures));
    assert(Seq::<CaptureV>::empty() + r.captures =~= r.captures);
    let c1 = after_captures(c0, r.captures);
    let r1 = ResponseSpecV { captures: r.captures, ..r0 };
    assert(r.captures.len() > 0 || r.status is Some ==> c1.response == Some(r1));
    assert(r.captures.len() == 0 && r.status is None ==> c1 == b);
    // the asserts
    lemma_run_assert_section(c1, r.asserts);
    lemma_run_from_append(b, p1, assert_section_lines(r.asserts));
    assert(Seq::<AssertV>::empty() + r.asserts =~= r.asserts);
    let c2 = after_asserts(c1, r.asserts);
    assert(c2.response == Some(r));
    assert(p1 + assert_section_lines(r.asserts) == response_lines(r));
}

proof fn lemma_exchange_lines_run(st: PState, e: EntryV)
    requires
        simple_entry(e),
        st.body == Seq::<Seq<char>>::empty(),
        !st.has_request ==> st.request == empty_request() && st.response is None,
    ensures
        run_from(st, exchange_lines(e)) == (PState {
            request: e.request,
            response: e.response_spec,
            state: entry_end_state(e),
            ..after_request(st, e)
        }),
{
    lemma_request_lines_run(st, e);
    let b = PState { request: e.request, state: request_end_state(e.request), ..after_request(st, e) };
    match e.response_spec {
        Some(r) => {
            lemma_response_lines_run(b, r);
            lemma_run_from_append(st, request_lines(e), response_lines(r));
        },
        None => {},
    }
}

proof fn lemma_step_comment(st: PState, c: Seq<char>)
    requires
        simple_comment(c),
        st.comment is None,
    ensures
        step(st, comment_line_of(c)) == (PState { comment: Some(c), ..st }),
{
    let l = comment_line_of(c);
    let t = trim(l);
    assert(l[0] == '#');
    assert(trim_start(l) == l);
    if c.len() > 0 {
        assert(l.last() == c.last());
        assert(trim_end(l) == l);
        assert(t == l);
        assert(l.drop_first() =~= seq![' '] + c);
        assert(crate::parser::strip_hashes(l.drop_first()) == l.drop_first());
        assert(crate::parser::strip_hashes(l) == seq![' '] + c);
        assert((seq![' '] + c).drop_first() =~= c);
        lemma_trim_plain(c);
        assert(trim_start(seq![' '] + c) == trim_start(c));
    } else {
        assert(l =~= seq!['#', ' ']);
        assert(l.drop_last() =~= seq!['#']);
        assert(trim_end(seq!['#']) == seq!['#']);
        assert(t =~= seq!['#']);
        assert(seq!['#'].drop_first() =~= Seq::<char>::empty());
        assert(crate::parser::strip_hashes(Seq::<char>::empty()) =~= Seq::<char>::empty());
        assert(crate::parser::strip_hashes(t) =~= Seq::<char>::empty());
        assert(c =~= Seq::<char>::empty());
    }
    assert(crate::parser::comment_text(t) == c);
}

proof fn lemma_entry_lines_run(st: PState, e: EntryV)
    requires
        simple_entry(e),
        st.body == Seq::<Seq<char>>::empty(),
        !st.has_request ==> st.request == empty_request() && st.response is None && st.comment is None,
        e.comment is Some ==> !st.has_request,
    ensures
        run_from(st, entry_lines(e)) == after_entry(st, e),
{
    match e.comment {
        Some(c) => {
            let l = comment_line_of(c);
            lemma_step_comment(st, c);
            lemma_run_one(st, l);
            let st1 = PState { comment: Some(c), ..st };
            lemma_exchange_lines_run(st1, e);
            lemma_run_from_append(st, seq![l], exchange_lines(e));
            assert(comment_lines(e.comment) == seq![l]);
        },
        None => {
            lemma_exchange_lines_run(st, e);
            assert(comment_lines(e.comment) =~= Seq::<Seq<char>>::empty());
            assert(entry_lines(e) =~= exchange_lines(e));
        },
    }
}

/// The state after the lines of simple entries: all but the last read, the last being
/// read.
pub open spec fn state_after(es: Seq<EntryV>) -> PState {
    PState {
        entries: es.drop_last(),
        state: entry_end_state(es.last()),
        comment: es.last().comment,
        request: es.last().request,
        response: es.last().response_spec,
        body: seq![],
        has_request: true,
    }
}

#[verifier::rlimit(60)]
proof fn lemma_run_file_lines(es: Seq<EntryV>)
    requires
        es.len() > 0,
        forall|i: int| 0 <= i < es.len() ==> simple_entry(#[trigger] es[i]),
        later_without_comment(es),
    ensures
        run_lines(file_lines(es)) == state_after(es),
    decreases es.len(),
{
    if es.len() == 1 {
        let e = es[0];
        lemma_run_lines_append(Seq::<Seq<char>>::empty(), entry_lines(e));
        assert(Seq::<Seq<char>>::empty() + entry_lines(e) =~= entry_lines(e));
        assert(run_lines(Seq::<Seq<char>>::empty()) == initial_pstate());
        lemma_entry_lines_run(initial_pstate(), e);
        assert(es.drop_last() =~= Seq::<EntryV>::empty());
        assert(file_lines(es) == entry_lines(e));
        assert(after_entry(initial_pstate(), e) == state_after(es));
    } else {
        let d = es.drop_last();
        let e = es.last();
        assert forall|i: int| 0 <= i < d.len() implies simple_entry(#[trigger] d[i]) by {
            assert(d[i] == es[i]);
        }
        assert(simple_entry(es[es.len() - 1]));
        assert(later_without_comment(d)) by {
            assert forall|i: int| 1 <= i < d.len() implies (#[trigger] d[i]).comment is None by {
                assert(d[i] == es[i]);
            }
        }
        assert(e.comment is None) by {
            assert(es[es.len() - 1].comment is None);
        }
        lemma_run_file_lines(d);
        let st = state_after(d);
        lemma_run_lines_append(file_lines(d), seq![seq![]] + entry_lines(e));
        assert(file_lines(es) =~= file_lines(d) + (seq![seq![]] + entry_lines(e)));
        lemma_run_from_append(st, seq![seq![]], entry_lines(e));
        let blank: Seq<Seq<char>> = seq![Seq::<char>::empty()];
        assert(blank.drop_last() =~= Seq::<Seq<char>>::empty());
        assert(run_from(st, blank.drop_last()) == st);
        assert(blank.last() == Seq::<char>::empty());
        assert(trim(Seq::<char>::empty()) =~= Seq::<char>::empty());
        assert(step(st, Seq::<char>::empty()) == st);
        assert(run_from(st, blank) == st);
        assert(seq![seq![]] + entry_lines(e) == blank + entry_lines(e));
        lemma_entry_lines_run(st, e);
        assert(simple_entry(d.last())) by {
            assert(d.last() == d[d.len() - 1]);
        }
        assert(finalize(st.request, st.body) == (st.request, st.body));
        assert(current_entry(st) == d.last());
        assert(d.drop_last().push(d.last()) =~= d);
        assert(es.drop_last() == d);
        assert(after_entry(st, e).entries == state_after(es).entries);
        assert(after_entry(st, e) == state_after(es));
    }
}

/// Every line is plain.
pub open spec fn all_plain(ls: Seq<Seq<char>>) -> bool {
    forall|j: int| 0 <= j < ls.len() ==> plain_line(#[trigger] ls[j])
}

proof fn lemma_plain_append(a: Seq<Seq<char>>, b: Seq<Seq<char>>)
    requires
        all_plain(a),
        all_plain(b),
    ensures
        all_plain(a + b),
{
    assert forall|j: int| 0 <= j < (a + b).len() implies plain_line(#[trigger] (a + b)[j]) by {
        if j < a.len() {
            assert((a + b)[j] == a[j]);
        } else {
            assert((a + b)[j] == b[j - a.len()]);
        }
    }
}

proof fn lemma_request_lines_plain(e: EntryV)
    requires
        simple_entry(e),
    ensures
        all_plain(request_lines(e)),
{
    let r = e.request;
    lemma_method_name(r.method);
    let l1 = request_line(e);
    let name = method_name(r.method);
    assert forall|j: int| 0 <= j < l1.len() implies #[trigger] l1[j] != '\n' by {
        if j < name.len() {
            assert(l1[j] == name[j]);
        } else if j > name.len() {
            assert(l1[j] == r.url[j - name.len() - 1]);
        }
    }
    if r.url.len() > 0 {
        assert(l1.last() == r.url.last());
    } else {
        assert(l1.last() == ' ');
    }
    assert(plain_line(l1));
    assert(all_plain(seq![l1]));
    lemma_header_lines_plain(r.headers);
    lemma_plain_append(seq![l1], header_lines(r.headers));
    let p0 = seq![l1] + header_lines(r.headers);
    let lq = section_lines(Section::Query, r.query_params);
    let lf = section_lines(Section::Form, r.form_params);
    let lc = section_lines(Section::Cookies, r.cookies);
    let lo = section_lines(Section::Options, r.options);
    lemma_section_lines_plain(Section::Query, r.query_params);
    lemma_section_lines_plain(Section::Form, r.form_params);
    lemma_section_lines_plain(Section::Cookies, r.cookies);
    lemma_section_lines_plain(Section::Options, r.options);
    lemma_plain_append(p0, lq);
    lemma_plain_append(p0 + lq, lf);
    lemma_plain_append(p0 + lq + lf, lc);
    lemma_plain_append(p0 + lq + lf + lc, lo);
}

proof fn lemma_file_lines_plain(es: Seq<EntryV>)
    requires
        forall|i: int| 0 <= i < es.len() ==> simple_entry(#[trigger] es[i]),
    ensures
        forall|j: int| 0 <= j < file_lines(es).len() ==> plain_line(#[trigger] file_lines(es)[j]),
    decreases es.len(),
{
    if es.len() > 0 {
        let e = es.last();
        assert(simple_entry(es[es.len() - 1]));
        if let Some(r) = e.response_spec {
            let st = r.status->Some_0;
            let l2 = status_line(st);
            lemma_decimal_digits(st as nat);
            let dd = decimal(st as nat);
            assert forall|j: int| 0 <= j < l2.len() implies #[trigger] l2[j] != '\n' by {
                if j >= 5 {
                    assert(l2[j] == dd[j - 5]);
                    assert(crate::num::is_digit(dd[j - 5]));
                }
            }
            assert(l2.last() == dd[dd.len() - 1]);
            assert(crate::num::is_digit(dd[dd.len() - 1]));
            assert(plain_line(l2));
            assert(all_plain(seq![l2]));
            lemma_header_lines_plain(r.headers);
            lemma_plain_append(seq![l2], header_lines(r.headers));
            let p0 = seq![l2] + header_lines(r.headers);
            lemma_capture_section_plain(r.captures);
            lemma_plain_append(p0, capture_section_lines(r.captures));
            lemma_assert_section_plain(r.asserts);
            lemma_plain_append(p0 + capture_section_lines(r.captures), assert_section_lines(r.asserts));
            let rl = response_lines(r);
            assert(all_plain(rl));
        }
        lemma_request_lines_plain(e);
        if let Some(r) = e.response_spec {
            lemma_plain_append(request_lines(e), response_lines(r));
        }
        assert(all_plain(exchange_lines(e)));
        match e.comment {
            Some(c) => {
                let l = comment_line_of(c);
                assert forall|j: int| 0 <= j < l.len() implies #[trigger] l[j] != '\n' by {
                    if j >= 2 {
                        assert(l[j] == c[j - 2]);
                    }
                }
                assert(l.len() > 0 ==> l.last() != '\r') by {
                    if c.len() > 0 {
                        assert(l.last() == c.last());
                    }
                }
                assert(all_plain(comment_lines(e.comment)));
            },
            None => {
                assert(comment_lines(e.comment) =~= Seq::<Seq<char>>::empty());
            },
        }
        lemma_plain_append(comment_lines(e.comment), exchange_lines(e));
        assert(all_plain(entry_lines(e)));
        if es.len() > 1 {
            let d = es.drop_last();
            assert forall|i: int| 0 <= i < d.len() implies simple_entry(#[trigger] d[i]) by {
                assert(d[i] == es[i]);
            }
            lemma_file_lines_plain(d);
            let all = file_lines(es);
            let a = file_lines(d);
            assert(plain_line(Seq::<char>::empty()));
            assert forall|j: int| 0 <= j < all.len() implies plain_line(#[trigger] all[j]) by {
                if j < a.len() {
                    assert(all[j] == a[j]);
                } else if j == a.len() {
                    assert(all[j] == Seq::<char>::empty());
                } else {
                    assert(all[j] == entry_lines(e)[j - a.len() - 1]);
                }
            }
        } else {
            assert(file_lines(es) == entry_lines(es[0]));
        }
    }
}

/// Reading back what was written: for a file that names no path, whose entries are simple
/// (a comment, a request with a method, a URL, headers and the pairs of its sections but no
/// body, and at most a response with a status, headers, captures and asserts, or with
/// captures and asserts alone; see `simple_entry`) and where no entry but the first has a
/// comment, parsing the serialized text gives the file back.
pub proof fn lemma_parse_serialize_round_trip(f: HurlFileV)
    requires
        f.path is None,
        forall|i: int| 0 <= i < f.entries.len() ==> simple_entry(#[trigger] f.entries[i]),
        later_without_comment(f.entries),
    ensures
        parse_spec(serialize_spec(f)) == f,
{
    let es = f.entries;
    lemma_entries_text(es);
    lemma_file_lines_plain(es);
    lemma_lines_of_terminated(file_lines(es));
    assert(serialize_spec(f) == terminated(file_lines(es)));
    assert(lines(serialize_spec(f)) == file_lines(es));
    if es.len() == 0 {
        assert(file_lines(es) =~= Seq::<Seq<char>>::empty());
        assert(run_lines(file_lines(es)) == initial_pstate());
        assert(finish(initial_pstate()) =~= es);
        assert(parse_spec(serialize_spec(f)).entries =~= es);
    } else {
        lemma_run_file_lines(es);
        let st = state_after(es);
        assert(simple_entry(es.last())) by {
            assert(es.last() == es[es.len() - 1]);
        }
        assert(finalize(st.request, st.body) == (st.request, st.body));
        assert(current_entry(st) == es.last());
        assert(finish(st) =~= es);
        assert(parse_spec(serialize_spec(f)).entries =~= es);
    }
    assert(parse_spec(serialize_spec(f)).path == f.path);
}

/// A name (of a header, a pair or a capture) that reads back as written: ASCII characters,
/// not empty, no white space or colon, not opening with `#` or `[`, not starting with
/// `HTTP/`.
pub open spec fn simple_name(k: Seq<char>) -> bool {
    &&& k.len() > 0
    &&& k[0] != '#'
    &&& k[0] != '['
    &&& is_ascii_text(k)
    &&& forall|j: int| 0 <= j < k.len() ==> !is_ws(#[trigger] k[j]) && k[j] != ':'
    &&& !starts_with(k, seq!['H', 'T', 'T', 'P', '/'])
}

/// A header (or a pair) that reads back as written: enabled; a simple name (see
/// `simple_name`) as key; a value without line breaks and, unless it is empty, with no
/// white space at either end.
pub open spec fn simple_header(kv: KeyValueV) -> bool {
    &&& kv.enabled
    &&& simple_name(kv.key)
    &&& kv.value.len() > 0 ==> !is_ws(kv.value[0]) && !is_ws(kv.value.last())
    &&& forall|j: int| 0 <= j < kv.value.len() ==> #[trigger] kv.value[j] != '\n'
}

/// The line of a header.
pub open spec fn header_line(kv: KeyValueV) -> Seq<char> {
    kv.key + seq![':', ' '] + kv.value
}

/// The lines of headers.
pub open spec fn header_lines(hs: Seq<KeyValueV>) -> Seq<Seq<char>>
    decreases hs.len(),
{
    if hs.len() == 0 {
        seq![]
    } else {
        header_lines(hs.drop_last()).push(header_line(hs.last()))
    }
}

/// The request with `kv` added to its headers.
pub open spec fn with_request_header(st: PState, kv: KeyValueV) -> PState {
    PState { request: RequestV { headers: st.request.headers.push(kv), ..st.request }, ..st }
}

/// The response with `kv` added to its headers.
pub open spec fn with_response_header(st: PState, kv: KeyValueV) -> PState {
    PState {
        response: Some(ResponseSpecV { headers: st.response->Some_0.headers.push(kv), ..st.response->Some_0 }),
        ..st
    }
}

proof fn lemma_header_line_facts(kv: KeyValueV)
    requires
        simple_header(kv),
    ensures
        trim(header_line(kv)) == (if kv.value.len() > 0 { header_line(kv) } else { kv.key + seq![':'] }),
        trim(header_line(kv)).len() > 0,
        trim(header_line(kv))[0] != '#',
        !is_request_line(trim(header_line(kv))),
        !is_response_line(trim(header_line(kv))),
        section_of(trim(header_line(kv))) is None,
        key_value_of(trim(header_line(kv))) == Some(kv),
        find(trim(header_line(kv)), ':') == Some(kv.key.len() as int),
        trim(trim(header_line(kv)).take(kv.key.len() as int)) == kv.key,
        trim(trim(header_line(kv)).skip(kv.key.len() + 1 as int)) == kv.value,
{
    let k = kv.key;
    let v = kv.value;
    let hl = header_line(kv);
    let n = k.len() as int;
    assert(hl[0] == k[0]);
    if v.len() > 0 {
        assert(hl.last() == v.last());
        lemma_trim_plain(hl);
    } else {
        assert(trim_start(hl) == hl);
        assert(hl.drop_last() =~= k + seq![':']);
        assert(trim_end(k + seq![':']) == k + seq![':']);
        assert(trim_end(hl) == k + seq![':']);
    }
    let t = trim(hl);
    assert(t == (if v.len() > 0 { hl } else { k + seq![':'] }));
    assert forall|j: int| 0 <= j < n implies #[trigger] t[j] == k[j] by {}
    assert(t[0] == k[0]);
    assert(t[n] == ':');
    assert(t.len() > n + 1 ==> t[n + 1] == ' ');
    // not a request line: the first word ends with the colon
    assert forall|j: int| 0 <= j <= n implies !is_ws(#[trigger] t[j]) by {
        if j < n {
            assert(t[j] == k[j]);
        }
    }
    assert(n + 1 < t.len() ==> is_ws(t[n + 1]));
    lemma_tokens_word(t, 0, n + 1);
    let w = t.subrange(0, n + 1);
    assert(first_word(t) == w);
    assert(is_ascii_text(w)) by {
        assert forall|j: int| 0 <= j < w.len() implies (#[trigger] w[j] as u32) < 128 by {
            if j < n {
                assert(w[j] == k[j]);
            }
        }
    }
    let wu = w.map_values(|c: char| ascii_upper(c));
    assert(upper_text(w) == wu);
    assert(wu.last() == ':');
    assert(method_named(wu) is None) by {
        assert(wu.last() != method_name(Method::Get).last());
        assert(wu.last() != method_name(Method::Post).last());
        assert(wu.last() != method_name(Method::Put).last());
        assert(wu.last() != method_name(Method::Delete).last());
        assert(wu.last() != method_name(Method::Patch).last());
        assert(wu.last() != method_name(Method::Options).last());
        assert(wu.last() != method_name(Method::Head).last());
    }
    assert(!is_request_line(t));
    // not a status line
    reveal_strlit("HTTP/");
    reveal_strlit("HTTP ");
    assert(!starts_with(t, "HTTP/"@)) by {
        if starts_with(t, "HTTP/"@) {
            if n >= 5 {
                assert(t.subrange(0, 5) =~= seq!['H', 'T', 'T', 'P', '/']);
                assert(k.subrange(0, 5) =~= t.subrange(0, 5));
                assert(starts_with(k, seq!['H', 'T', 'T', 'P', '/']));
            } else {
                assert(t[n] == ':');
                assert(t.subrange(0, 5)[n] == ':');
            }
        }
    }
    assert(!starts_with(t, "HTTP "@)) by {
        if starts_with(t, "HTTP "@) {
            assert(t.subrange(0, 5) =~= seq!['H', 'T', 'T', 'P', ' ']);
            assert(t.subrange(0, 5)[4] == ' ');
            assert(t[4] == ' ');
            if n >= 5 {
                assert(t[4] == k[4]);
                assert(!is_ws(k[4]));
            } else {
                assert(t.subrange(0, 5)[n] == ':');
            }
        }
    }
    assert(!is_response_line(t));
    // not a section header: those open with `[`
    reveal_strlit("[Query]");
    reveal_strlit("[QueryStringParams]");
    reveal_strlit("[Form]");
    reveal_strlit("[FormParams]");
    reveal_strlit("[Cookies]");
    reveal_strlit("[Options]");
    reveal_strlit("[Captures]");
    reveal_strlit("[Asserts]");
    assert(section_of(t) is None) by {
        assert(t[0] != '[');
    }
    // the pair
    assert forall|j: int| 0 <= j < n implies #[trigger] t[j] != ':' by {
        assert(t[j] == k[j]);
    }
    lemma_find_from(t, ':', 0);
    assert(find(t, ':') == Some(n)) by {
        match find_from(t, ':', 0) {
            Some(p) => {
                if p < n {
                    assert(t[p] != ':');
                }
            },
            None => {
                assert(t[n] == ':');
            },
        }
    }
    assert(t.take(n) =~= k);
    assert(k.len() > 0 && !is_ws(k[0]) && !is_ws(k.last()));
    lemma_trim_plain(k);
    assert(!k.contains(' ')) by {
        if k.contains(' ') {
            let j = choose|j: int| 0 <= j < k.len() && k[j] == ' ';
            assert(!is_ws(k[j]));
        }
    }
    if v.len() > 0 {
        assert(t.skip(n + 1) =~= seq![' '] + v);
        assert(trim_start(seq![' '] + v) == trim_start(v)) by {
            assert((seq![' '] + v).drop_first() =~= v);
        }
        assert(trim_start(v) == v);
        assert(trim_end(v) == v);
    } else {
        assert(t.skip(n + 1) =~= Seq::<char>::empty());
        assert(v =~= Seq::<char>::empty());
    }
    assert(trim(t.skip(n + 1)) == v);
    assert(key_value_of(t) == Some(KeyValueV { key: k, value: v, enabled: true }));
    assert(kv == KeyValueV { key: k, value: v, enabled: true });
}

proof fn lemma_step_header(st: PState, kv: KeyValueV)
    requires
        simple_header(kv),
        st.state == State::RequestHeaders || (st.state == State::ResponseHeaders && st.response is Some),
    ensures
        step(st, header_line(kv)) == (if st.state == State::RequestHeaders {
            with_request_header(st, kv)
        } else {
            with_response_header(st, kv)
        }),
{
    lemma_header_line_facts(kv);
}

/// The request with `kv` added to the part that `sec` names.
pub open spec fn with_section_pair(st: PState, sec: Section, kv: KeyValueV) -> PState {
    PState { request: add_to_section(st.request, sec, kv), ..st }
}

proof fn lemma_step_section_pair(st: PState, sec: Section, kv: KeyValueV)
    requires
        simple_header(kv),
        st.state == State::RequestSection(sec),
        sec != Section::Captures && sec != Section::Asserts,
    ensures
        step(st, header_line(kv)) == with_section_pair(st, sec, kv),
{
    lemma_header_line_facts(kv);
}

proof fn lemma_run_request_headers(st: PState, hs: Seq<KeyValueV>)
    requires
        st.state == State::RequestHeaders,
        forall|i: int| 0 <= i < hs.len() ==> simple_header(#[trigger] hs[i]),
    ensures
        run_from(st, header_lines(hs)) == (PState {
            request: RequestV { headers: st.request.headers + hs, ..st.request },
            ..st
        }),
    decreases hs.len(),
{
    if hs.len() == 0 {
        assert(header_lines(hs) =~= Seq::<Seq<char>>::empty());
        assert(st.request.headers + hs =~= st.request.headers);
        assert(run_from(st, header_lines(hs)) == st);
        assert(RequestV { headers: st.request.headers + hs, ..st.request } == st.request);
    } else {
        let d = hs.drop_last();
        assert forall|i: int| 0 <= i < d.len() implies simple_header(#[trigger] d[i]) by {
            assert(d[i] == hs[i]);
        }
        lemma_run_request_headers(st, d);
        let mid = run_from(st, header_lines(d));
        assert(header_lines(hs).drop_last() == header_lines(d));
        assert(header_lines(hs).last() == header_line(hs.last()));
        assert(simple_header(hs[hs.len() - 1]));
        lemma_step_header(mid, hs.last());
        assert(st.request.headers + d.push(hs.last()) =~= (st.request.headers + d).push(hs.last()));
        assert(d.push(hs.last()) =~= hs);
    }
}

proof fn lemma_run_response_headers(st: PState, hs: Seq<KeyValueV>)
    requires
        st.state == State::ResponseHeaders,
        st.response is Some,
        forall|i: int| 0 <= i < hs.len() ==> simple_header(#[trigger] hs[i]),
    ensures
        run_from(st, header_lines(hs)) == (PState {
            response: Some(ResponseSpecV { headers: st.response->Some_0.headers + hs, ..st.response->Some_0 }),
            ..st
        }),
    decreases hs.len(),
{
    let r = st.response->Some_0;
    if hs.len() == 0 {
        assert(header_lines(hs) =~= Seq::<Seq<char>>::empty());
        assert(r.headers + hs =~= r.headers);
        assert(run_from(st, header_lines(hs)) == st);
        assert(ResponseSpecV { headers: r.headers + hs, ..r } == r);
    } else {
        let d = hs.drop_last();
        assert forall|i: int| 0 <= i < d.len() implies simple_header(#[trigger] d[i]) by {
            assert(d[i] == hs[i]);
        }
        lemma_run_response_headers(st, d);
        let mid = run_from(st, header_lines(d));
        assert(header_lines(hs).drop_last() == header_lines(d));
        assert(header_lines(hs).last() == header_line(hs.last()));
        assert(simple_header(hs[hs.len() - 1]));
        lemma_step_header(mid, hs.last());
        assert(r.headers + d.push(hs.last()) =~= (r.headers + d).push(hs.last()));
        assert(d.push(hs.last()) =~= hs);
    }
}

proof fn lemma_kvs_text(hs: Seq<KeyValueV>)
    requires
        forall|i: int| 0 <= i < hs.len() ==> simple_header(#[trigger] hs[i]),
    ensures
        kvs_text(hs) == terminated(header_lines(hs)),
    decreases hs.len(),
{
    if hs.len() > 0 {
        let d = hs.drop_last();
        assert forall|i: int| 0 <= i < d.len() implies simple_header(#[trigger] d[i]) by {
            assert(d[i] == hs[i]);
        }
        lemma_kvs_text(d);
        assert(simple_header(hs[hs.len() - 1]));
        reveal_strlit(": ");
        reveal_strlit("\n");
        assert(header_lines(hs).drop_last() == header_lines(d));
        assert(header_lines(hs).last() == header_line(hs.last()));
        assert(kvs_text(hs) =~= terminated(header_lines(hs)));
    } else {
        assert(header_lines(hs) =~= Seq::<Seq<char>>::empty());
    }
}

proof fn lemma_header_lines_plain(hs: Seq<KeyValueV>)
    requires
        forall|i: int| 0 <= i < hs.len() ==> simple_header(#[trigger] hs[i]),
    ensures
        header_lines(hs).len() == hs.len(),
        forall|j: int| 0 <= j < header_lines(hs).len() ==> plain_line(#[trigger] header_lines(hs)[j]),
    decreases hs.len(),
{
    if hs.len() > 0 {
        let d = hs.drop_last();
        assert forall|i: int| 0 <= i < d.len() implies simple_header(#[trigger] d[i]) by {
            assert(d[i] == hs[i]);
        }
        lemma_header_lines_plain(d);
        let kv = hs.last();
        assert(simple_header(hs[hs.len() - 1]));
        let l = header_line(kv);
        let n = kv.key.len() as int;
        assert forall|j: int| 0 <= j < l.len() implies #[trigger] l[j] != '\n' by {
            if j < n {
                assert(l[j] == kv.key[j]);
                assert(!is_ws(kv.key[j]));
            } else if j > n + 1 {
                assert(l[j] == kv.value[j - n - 2]);
            }
        }
        if kv.value.len() > 0 {
            assert(l.last() == kv.value.last());
        } else {
            assert(l.last() == ' ');
        }
        assert(plain_line(l));
        let all = header_lines(hs);
        assert forall|j: int| 0 <= j < all.len() implies plain_line(#[trigger] all[j]) by {
            if j < d.len() {
                assert(all[j] == header_lines(d)[j]);
            }
        }
    }
}

/// The name that a request section is written with.
pub open spec fn section_name(sec: Section) -> Seq<char> {
    match sec {
        Section::Query => "Query"@,
        Section::Form => "Form"@,
        Section::Cookies => "Cookies"@,
        Section::Options => "Options"@,
        Section::Captures => "Captures"@,
        Section::Asserts => "Asserts"@,
    }
}

/// The header line of a section: its name in brackets.
pub open spec fn section_line(sec: Section) -> Seq<char> {
    seq!['['] + section_name(sec) + seq![']']
}

/// The lines of a section of the request: none for an empty one.
pub open spec fn section_lines(sec: Section, kvs: Seq<KeyValueV>) -> Seq<Seq<char>> {
    if kvs.len() == 0 {
        seq![]
    } else {
        seq![section_line(sec)] + header_lines(kvs)
    }
}

/// The pairs of the part of a request that a section names.
pub open spec fn section_part(req: RequestV, sec: Section) -> Seq<KeyValueV> {
    match sec {
        Section::Query => req.query_params,
        Section::Form => req.form_params,
        Section::Cookies => req.cookies,
        _ => req.options,
    }
}

/// The request with the part that a section names set to `part`.
pub open spec fn with_section_part(req: RequestV, sec: Section, part: Seq<KeyValueV>) -> RequestV {
    match sec {
        Section::Query => RequestV { query_params: part, ..req },
        Section::Form => RequestV { form_params: part, ..req },
        Section::Cookies => RequestV { cookies: part, ..req },
        _ => RequestV { options: part, ..req },
    }
}

pub open spec fn request_section(sec: Section) -> bool {
    sec == Section::Query || sec == Section::Form || sec == Section::Cookies || sec == Section::Options
}

proof fn lemma_section_line_facts(sec: Section)
    ensures
        trim(section_line(sec)) == section_line(sec),
        section_line(sec).len() > 0,
        section_line(sec)[0] != '#',
        !is_request_line(section_line(sec)),
        !is_response_line(section_line(sec)),
        section_of(section_line(sec)) == Some(sec),
        plain_line(section_line(sec)),
{
    reveal_strlit("Query");
    reveal_strlit("Form");
    reveal_strlit("Cookies");
    reveal_strlit("Options");
    reveal_strlit("Captures");
    reveal_strlit("Asserts");
    reveal_strlit("[Query]");
    reveal_strlit("[QueryStringParams]");
    reveal_strlit("[Form]");
    reveal_strlit("[FormParams]");
    reveal_strlit("[Cookies]");
    reveal_strlit("[Options]");
    reveal_strlit("[Captures]");
    reveal_strlit("[Asserts]");
    reveal_strlit("HTTP/");
    reveal_strlit("HTTP ");
    let t = section_line(sec);
    let len = t.len() as int;
    assert(t[0] == '[');
    assert(t.last() == ']');
    lemma_trim_plain(t);
    assert forall|j: int| 0 <= j < len implies !is_ws(#[trigger] t[j]) && t[j] != '\n' by {
        if 0 < j < len - 1 {
            assert(t[j] == section_name(sec)[j - 1]);
        }
    }
    lemma_tokens_word(t, 0, len);
    assert(t.subrange(0, len) =~= t);
    assert(tokens_from(t, len) =~= Seq::<Seq<char>>::empty());
    assert(first_word(t) == t);
    assert(is_ascii_text(t)) by {
        assert forall|j: int| 0 <= j < len implies (#[trigger] t[j] as u32) < 128 by {
            if 0 < j < len - 1 {
                assert(t[j] == section_name(sec)[j - 1]);
            }
        }
    }
    let tu = t.map_values(|c: char| ascii_upper(c));
    assert(upper_text(t) == tu);
    assert(tu[0] == '[');
    assert(method_named(tu) is None) by {
        assert(tu[0] != method_name(Method::Get)[0]);
        assert(tu[0] != method_name(Method::Post)[0]);
        assert(tu[0] != method_name(Method::Put)[0]);
        assert(tu[0] != method_name(Method::Delete)[0]);
        assert(tu[0] != method_name(Method::Patch)[0]);
        assert(tu[0] != method_name(Method::Options)[0]);
        assert(tu[0] != method_name(Method::Head)[0]);
    }
    assert(!starts_with(t, "HTTP/"@)) by {
        if starts_with(t, "HTTP/"@) {
            assert(t.subrange(0, 5)[0] == t[0]);
        }
    }
    assert(!starts_with(t, "HTTP "@)) by {
        if starts_with(t, "HTTP "@) {
            assert(t.subrange(0, 5)[0] == t[0]);
        }
    }
    match sec {
        Section::Query => {
            assert(t =~= "[Query]"@);
        },
        Section::Form => {
            assert(t =~= "[Form]"@);
            assert(t != "[Query]"@);
            assert(t != "[QueryStringParams]"@);
        },
        Section::Cookies => {
            assert(t =~= "[Cookies]"@);
            assert(t != "[Query]"@);
            assert(t != "[QueryStringParams]"@);
            assert(t != "[Form]"@);
            assert(t != "[FormParams]"@);
        },
        Section::Options => {
            assert(t =~= "[Options]"@);
            assert(t != "[Query]"@);
            assert(t != "[QueryStringParams]"@);
            assert(t != "[Form]"@);
            assert(t != "[FormParams]"@);
            assert(t[1] == 'O');
            assert("[Cookies]"@[1] == 'C');
            assert(t != "[Cookies]"@);
        },
        Section::Captures => {
            assert(t =~= "[Captures]"@);
            assert(t[1] == 'C');
            assert(t != "[Query]"@);
            assert(t != "[QueryStringParams]"@);
            assert(t != "[Form]"@);
            assert(t != "[FormParams]"@);
            assert(t[2] == 'a');
            assert("[Cookies]"@[2] == 'o');
            assert(t != "[Cookies]"@);
            assert(t != "[Options]"@);
        },
        Section::Asserts => {
            assert(t =~= "[Asserts]"@);
            assert(t[1] == 'A');
            assert(t != "[Query]"@);
            assert(t != "[QueryStringParams]"@);
            assert(t != "[Form]"@);
            assert(t != "[FormParams]"@);
            assert(t != "[Cookies]"@);
            assert(t != "[Options]"@);
            assert(t != "[Captures]"@);
        },
    }
    assert(plain_line(t));
}

proof fn lemma_run_section_pairs(st: PState, sec: Section, kvs: Seq<KeyValueV>)
    requires
        request_section(sec),
        st.state == State::RequestSection(sec),
        forall|i: int| 0 <= i < kvs.len() ==> simple_header(#[trigger] kvs[i]),
    ensures
        run_from(st, header_lines(kvs)) == (PState {
            request: with_section_part(st.request, sec, section_part(st.request, sec) + kvs),
            ..st
        }),
    decreases kvs.len(),
{
    if kvs.len() == 0 {
        assert(header_lines(kvs) =~= Seq::<Seq<char>>::empty());
        assert(section_part(st.request, sec) + kvs =~= section_part(st.request, sec));
        assert(with_section_part(st.request, sec, section_part(st.request, sec)) == st.request);
    } else {
        let d = kvs.drop_last();
        assert forall|i: int| 0 <= i < d.len() implies simple_header(#[trigger] d[i]) by {
            assert(d[i] == kvs[i]);
        }
        lemma_run_section_pairs(st, sec, d);
        let mid = run_from(st, header_lines(d));
        assert(header_lines(kvs).drop_last() == header_lines(d));
        assert(header_lines(kvs).last() == header_line(kvs.last()));
        assert(simple_header(kvs[kvs.len() - 1]));
        lemma_step_section_pair(mid, sec, kvs.last());
        assert(section_part(st.request, sec) + d.push(kvs.last()) =~= (section_part(st.request, sec) + d).push(
            kvs.last(),
        ));
        assert(d.push(kvs.last()) =~= kvs);
    }
}

/// The state after a section of the request, from a state with no pending body.
pub open spec fn after_section(st: PState, sec: Section, kvs: Seq<KeyValueV>) -> PState {
    if kvs.len() == 0 {
        st
    } else {
        PState {
            request: with_section_part(st.request, sec, section_part(st.request, sec) + kvs),
            state: State::RequestSection(sec),
            ..st
        }
    }
}

proof fn lemma_run_section(st: PState, sec: Section, kvs: Seq<KeyValueV>)
    requires
        request_section(sec),
        st.body == Seq::<Seq<char>>::empty(),
        forall|i: int| 0 <= i < kvs.len() ==> simple_header(#[trigger] kvs[i]),
    ensures
        run_from(st, section_lines(sec, kvs)) == after_section(st, sec, kvs),
{
    if kvs.len() == 0 {
        assert(section_lines(sec, kvs) =~= Seq::<Seq<char>>::empty());
    } else {
        lemma_section_line_facts(sec);
        let l = section_line(sec);
        lemma_run_one(st, l);
        assert(finalize(st.request, st.body) == (st.request, st.body));
        let a = PState { state: State::RequestSection(sec), ..st };
        assert(step(st, l) == a);
        lemma_run_section_pairs(a, sec, kvs);
        lemma_run_from_append(st, seq![l], header_lines(kvs));
    }
}

proof fn lemma_section_text(sec: Section, kvs: Seq<KeyValueV>)
    requires
        request_section(sec),
        forall|i: int| 0 <= i < kvs.len() ==> simple_header(#[trigger] kvs[i]),
    ensures
        section_text(section_name(sec), kvs) == terminated(section_lines(sec, kvs)),
{
    if kvs.len() == 0 {
        assert(section_lines(sec, kvs) =~= Seq::<Seq<char>>::empty());
    } else {
        reveal_strlit("[");
        reveal_strlit("]\n");
        let l = section_line(sec);
        lemma_one_line(l);
        lemma_kvs_text(kvs);
        lemma_terminated_append(seq![l], header_lines(kvs));
        assert(section_text(section_name(sec), kvs) =~= terminated(section_lines(sec, kvs)));
    }
}

proof fn lemma_section_lines_plain(sec: Section, kvs: Seq<KeyValueV>)
    requires
        request_section(sec),
        forall|i: int| 0 <= i < kvs.len() ==> simple_header(#[trigger] kvs[i]),
    ensures
        forall|j: int| 0 <= j < section_lines(sec, kvs).len() ==> plain_line(#[trigger] section_lines(sec, kvs)[j]),
{
    if kvs.len() > 0 {
        lemma_section_line_facts(sec);
        lemma_header_lines_plain(kvs);
        let ls = section_lines(sec, kvs);
        assert forall|j: int| 0 <= j < ls.len() implies plain_line(#[trigger] ls[j]) by {
            if j > 0 {
                assert(ls[j] == header_lines(kvs)[j - 1]);
            }
        }
    }
}

/// A capture that reads back as written: a simple name (see `simple_name`) and a plain
/// query (see `plain_query`) with no line break in its argument.
pub open spec fn simple_capture(c: CaptureV) -> bool {
    simple_name(c.name) && plain_query(c.query) && one_line_query(c.query)
}

/// A capture as the pair of its line: its name and the text of its query.
pub open spec fn capture_pair(c: CaptureV) -> KeyValueV {
    KeyValueV { key: c.name, value: query_text(c.query), enabled: true }
}

/// The line of a capture: its name, a colon and its query.
pub open spec fn capture_line(c: CaptureV) -> Seq<char> {
    header_line(capture_pair(c))
}

/// The lines of captures.
pub open spec fn capture_lines(cs: Seq<CaptureV>) -> Seq<Seq<char>>
    decreases cs.len(),
{
    if cs.len() == 0 {
        seq![]
    } else {
        capture_lines(cs.drop_last()).push(capture_line(cs.last()))
    }
}

/// The lines of asserts.
pub open spec fn assert_lines(xs: Seq<AssertV>) -> Seq<Seq<char>>
    decreases xs.len(),
{
    if xs.len() == 0 {
        seq![]
    } else {
        assert_lines(xs.drop_last()).push(assert_line(xs.last()))
    }
}

/// The section of captures: none when there are no captures.
pub open spec fn capture_section_lines(cs: Seq<CaptureV>) -> Seq<Seq<char>> {
    if cs.len() == 0 {
        seq![]
    } else {
        seq![section_line(Section::Captures)] + capture_lines(cs)
    }
}

/// The section of asserts: none when there are no asserts.
pub open spec fn assert_section_lines(xs: Seq<AssertV>) -> Seq<Seq<char>> {
    if xs.len() == 0 {
        seq![]
    } else {
        seq![section_line(Section::Asserts)] + assert_lines(xs)
    }
}

proof fn lemma_capture_pair(c: CaptureV)
    requires
        simple_capture(c),
    ensures
        simple_header(capture_pair(c)),
{
    lemma_query_text_facts(c.query);
}

/// The response with `c` added to its captures.
pub open spec fn with_capture(st: PState, c: CaptureV) -> PState {
    PState {
        response: Some(ResponseSpecV { captures: st.response->Some_0.captures.push(c), ..st.response->Some_0 }),
        ..st
    }
}

/// The response with `a` added to its asserts.
pub open spec fn with_assert(st: PState, a: AssertV) -> PState {
    PState {
        response: Some(ResponseSpecV { asserts: st.response->Some_0.asserts.push(a), ..st.response->Some_0 }),
        ..st
    }
}

proof fn lemma_step_capture(st: PState, c: CaptureV)
    requires
        simple_capture(c),
        st.state == State::ResponseSection(Section::Captures),
        st.response is Some,
    ensures
        step(st, capture_line(c)) == with_capture(st, c),
{
    lemma_capture_pair(c);
    let kv = capture_pair(c);
    lemma_header_line_facts(kv);
    lemma_query_read(c.query);
    let t = capture_line(c);
    let n = c.name.len() as int;
    lemma_query_text_facts(c.query);
    assert(trim(t) == t);
    assert(capture_of(t) == Some(CaptureV { name: c.name, query: c.query }));
}

proof fn lemma_step_assert(st: PState, a: AssertV)
    requires
        line_assert(a),
        st.state == State::ResponseSection(Section::Asserts),
        st.response is Some,
    ensures
        step(st, assert_line(a)) == with_assert(st, a),
{
    lemma_assert_line_read(a);
}

proof fn lemma_run_captures(st: PState, cs: Seq<CaptureV>)
    requires
        st.state == State::ResponseSection(Section::Captures),
        st.response is Some,
        forall|i: int| 0 <= i < cs.len() ==> simple_capture(#[trigger] cs[i]),
    ensures
        run_from(st, capture_lines(cs)) == (PState {
            response: Some(ResponseSpecV { captures: st.response->Some_0.captures + cs, ..st.response->Some_0 }),
            ..st
        }),
    decreases cs.len(),
{
    let r = st.response->Some_0;
    if cs.len() == 0 {
        assert(capture_lines(cs) =~= Seq::<Seq<char>>::empty());
        assert(r.captures + cs =~= r.captures);
        assert(ResponseSpecV { captures: r.captures + cs, ..r } == r);
    } else {
        let d = cs.drop_last();
        assert forall|i: int| 0 <= i < d.len() implies simple_capture(#[trigger] d[i]) by {
            assert(d[i] == cs[i]);
        }
        lemma_run_captures(st, d);
        let mid = run_from(st, capture_lines(d));
        assert(capture_lines(cs).drop_last() == capture_lines(d));
        assert(capture_lines(cs).last() == capture_line(cs.last()));
        assert(simple_capture(cs[cs.len() - 1]));
        lemma_step_capture(mid, cs.last());
        assert(r.captures + d.push(cs.last()) =~= (r.captures + d).push(cs.last()));
        assert(d.push(cs.last()) =~= cs);
    }
}

proof fn lemma_run_asserts(st: PState, xs: Seq<AssertV>)
    requires
        st.state == State::ResponseSection(Section::Asserts),
        st.response is Some,
        forall|i: int| 0 <= i < xs.len() ==> line_assert(#[trigger] xs[i]),
    ensures
        run_from(st, assert_lines(xs)) == (PState {
            response: Some(ResponseSpecV { asserts: st.response->Some_0.asserts + xs, ..st.response->Some_0 }),
            ..st
        }),
    decreases xs.len(),
{
    let r = st.response->Some_0;
    if xs.len() == 0 {
        assert(assert_lines(xs) =~= Seq::<Seq<char>>::empty());
        assert(r.asserts + xs =~= r.asserts);
        assert(ResponseSpecV { asserts: r.asserts + xs, ..r } == r);
    } else {
        let d = xs.drop_last();
        assert forall|i: int| 0 <= i < d.len() implies line_assert(#[trigger] d[i]) by {
            assert(d[i] == xs[i]);
        }
        lemma_run_asserts(st, d);
        let mid = run_from(st, assert_lines(d));
        assert(assert_lines(xs).drop_last() == assert_lines(d));
        assert(assert_lines(xs).last() == assert_line(xs.last()));
        assert(line_assert(xs[xs.len() - 1]));
        lemma_step_assert(mid, xs.last());
        assert(r.asserts + d.push(xs.last()) =~= (r.asserts + d).push(xs.last()));
        assert(d.push(xs.last()) =~= xs);
    }
}

/// The response that a section of the response adds to: the one being read, or an empty one
/// without status.
pub open spec fn open_response(st: PState) -> ResponseSpecV {
    match st.response {
        Some(r) => r,
        None => empty_response(None),
    }
}

/// The state after the section of captures, from a state with no pending body.
pub open spec fn after_captures(st: PState, cs: Seq<CaptureV>) -> PState {
    if cs.len() == 0 {
        st
    } else {
        PState {
            response: Some(ResponseSpecV { captures: open_response(st).captures + cs, ..open_response(st) }),
            state: State::ResponseSection(Section::Captures),
            ..st
        }
    }
}

/// The state after the section of asserts, from a state with no pending body.
pub open spec fn after_asserts(st: PState, xs: Seq<AssertV>) -> PState {
    if xs.len() == 0 {
        st
    } else {
        PState {
            response: Some(ResponseSpecV { asserts: open_response(st).asserts + xs, ..open_response(st) }),
            state: State::ResponseSection(Section::Asserts),
            ..st
        }
    }
}

proof fn lemma_run_capture_section(st: PState, cs: Seq<CaptureV>)
    requires
        st.body == Seq::<Seq<char>>::empty(),
        forall|i: int| 0 <= i < cs.len() ==> simple_capture(#[trigger] cs[i]),
    ensures
        run_from(st, capture_section_lines(cs)) == after_captures(st, cs),
{
    if cs.len() == 0 {
        assert(capture_section_lines(cs) =~= Seq::<Seq<char>>::empty());
    } else {
        lemma_section_line_facts(Section::Captures);
        let l = section_line(Section::Captures);
        lemma_run_one(st, l);
        assert(finalize(st.request, st.body) == (st.request, st.body));
        let a = PState { state: State::ResponseSection(Section::Captures), response: Some(open_response(st)), ..st };
        assert(step(st, l) == a);
        lemma_run_captures(a, cs);
        lemma_run_from_append(st, seq![l], capture_lines(cs));
    }
}

proof fn lemma_run_assert_section(st: PState, xs: Seq<AssertV>)
    requires
        st.body == Seq::<Seq<char>>::empty(),
        forall|i: int| 0 <= i < xs.len() ==> line_assert(#[trigger] xs[i]),
    ensures
        run_from(st, assert_section_lines(xs)) == after_asserts(st, xs),
{
    if xs.len() == 0 {
        assert(assert_section_lines(xs) =~= Seq::<Seq<char>>::empty());
    } else {
        lemma_section_line_facts(Section::Asserts);
        let l = section_line(Section::Asserts);
        lemma_run_one(st, l);
        assert(finalize(st.request, st.body) == (st.request, st.body));
        let a = PState { state: State::ResponseSection(Section::Asserts), response: Some(open_response(st)), ..st };
        assert(step(st, l) == a);
        lemma_run_asserts(a, xs);
        lemma_run_from_append(st, seq![l], assert_lines(xs));
    }
}

proof fn lemma_captures_text(cs: Seq<CaptureV>)
    requires
        forall|i: int| 0 <= i < cs.len() ==> simple_capture(#[trigger] cs[i]),
    ensures
        captures_text(cs) == terminated(capture_lines(cs)),
    decreases cs.len(),
{
    if cs.len() > 0 {
        let d = cs.drop_last();
        assert forall|i: int| 0 <= i < d.len() implies simple_capture(#[trigger] d[i]) by {
            assert(d[i] == cs[i]);
        }
        lemma_captures_text(d);
        reveal_strlit(": ");
        reveal_strlit("\n");
        assert(capture_lines(cs).drop_last() == capture_lines(d));
        assert(capture_lines(cs).last() == capture_line(cs.last()));
        assert(captures_text(cs) =~= terminated(capture_lines(cs)));
    } else {
        assert(capture_lines(cs) =~= Seq::<Seq<char>>::empty());
    }
}

proof fn lemma_asserts_text(xs: Seq<AssertV>)
    ensures
        asserts_text(xs) == terminated(assert_lines(xs)),
    decreases xs.len(),
{
    if xs.len() > 0 {
        let d = xs.drop_last();
        lemma_asserts_text(d);
        reveal_strlit(" ");
        reveal_strlit("\n");
        assert(assert_lines(xs).drop_last() == assert_lines(d));
        assert(assert_lines(xs).last() == assert_line(xs.last()));
        assert(asserts_text(xs) =~= terminated(assert_lines(xs)));
    } else {
        assert(assert_lines(xs) =~= Seq::<Seq<char>>::empty());
    }
}

proof fn lemma_response_text(r: ResponseSpecV)
    requires
        simple_response(r),
    ensures
        crate::serializer::response_text(r) == terminated(response_lines(r)),
{
    reveal_strlit("HTTP ");
    reveal_strlit("\n");
    reveal_strlit("[Captures]\n");
    reveal_strlit("[Asserts]\n");
    reveal_strlit("Captures");
    reveal_strlit("Asserts");
    lemma_kvs_text(r.headers);
    let p0 = status_lines(r);
    match r.status {
        Some(s1) => {
            let l2 = status_line(s1);
            lemma_one_line(l2);
            lemma_terminated_append(seq![l2], header_lines(r.headers));
        },
        None => {
            assert(r.headers =~= Seq::<KeyValueV>::empty());
            assert(header_lines(r.headers) =~= Seq::<Seq<char>>::empty());
            assert(p0 =~= Seq::<Seq<char>>::empty());
        },
    }
    assert(crate::serializer::status_text(r.status) + kvs_text(r.headers) =~= terminated(p0));
    let lc = capture_section_lines(r.captures);
    let la = assert_section_lines(r.asserts);
    lemma_captures_text(r.captures);
    lemma_asserts_text(r.asserts);
    if r.captures.len() > 0 {
        let l = section_line(Section::Captures);
        lemma_one_line(l);
        lemma_terminated_append(seq![l], capture_lines(r.captures));
        assert(captures_block(r.captures) =~= terminated(lc));
    } else {
        assert(lc =~= Seq::<Seq<char>>::empty());
    }
    if r.asserts.len() > 0 {
        let l = section_line(Section::Asserts);
        lemma_one_line(l);
        lemma_terminated_append(seq![l], assert_lines(r.asserts));
        assert(asserts_block(r.asserts) =~= terminated(la));
    } else {
        assert(la =~= Seq::<Seq<char>>::empty());
    }
    lemma_terminated_append(p0, lc);
    lemma_terminated_append(p0 + lc, la);
    assert(crate::serializer::response_text(r) =~= terminated(response_lines(r)));
}

proof fn lemma_capture_lines_plain(cs: Seq<CaptureV>)
    requires
        forall|i: int| 0 <= i < cs.len() ==> simple_capture(#[trigger] cs[i]),
    ensures
        all_plain(capture_lines(cs)),
    decreases cs.len(),
{
    if cs.len() > 0 {
        let d = cs.drop_last();
        assert forall|i: int| 0 <= i < d.len() implies simple_capture(#[trigger] d[i]) by {
            assert(d[i] == cs[i]);
        }
        lemma_capture_lines_plain(d);
        assert(simple_capture(cs[cs.len() - 1]));
        lemma_capture_pair(cs.last());
        let kv = capture_pair(cs.last());
        lemma_header_lines_plain(seq![kv]);
        assert(header_lines(seq![kv]) =~= seq![header_line(kv)]) by {
            assert(seq![kv].drop_last() =~= Seq::<KeyValueV>::empty());
        }
        assert(plain_line(header_lines(seq![kv])[0]));
        assert(all_plain(seq![capture_line(cs.last())]));
        lemma_plain_append(capture_lines(d), seq![capture_line(cs.last())]);
        assert(capture_lines(cs) =~= capture_lines(d) + seq![capture_line(cs.last())]);
    } else {
        assert(capture_lines(cs) =~= Seq::<Seq<char>>::empty());
    }
}

proof fn lemma_assert_lines_plain(xs: Seq<AssertV>)
    requires
        forall|i: int| 0 <= i < xs.len() ==> line_assert(#[trigger] xs[i]),
    ensures
        all_plain(assert_lines(xs)),
    decreases xs.len(),
{
    if xs.len() > 0 {
        let d = xs.drop_last();
        assert forall|i: int| 0 <= i < d.len() implies line_assert(#[trigger] d[i]) by {
            assert(d[i] == xs[i]);
        }
        lemma_assert_lines_plain(d);
        assert(line_assert(xs[xs.len() - 1]));
        let l = assert_line(xs.last());
        lemma_assert_line_read(xs.last());
        assert(plain_line(l));
        assert(all_plain(seq![l]));
        lemma_plain_append(assert_lines(d), seq![l]);
        assert(assert_lines(xs) =~= assert_lines(d) + seq![l]);
    } else {
        assert(assert_lines(xs) =~= Seq::<Seq<char>>::empty());
    }
}

proof fn lemma_capture_section_plain(cs: Seq<CaptureV>)
    requires
        forall|i: int| 0 <= i < cs.len() ==> simple_capture(#[trigger] cs[i]),
    ensures
        all_plain(capture_section_lines(cs)),
{
    if cs.len() > 0 {
        lemma_section_line_facts(Section::Captures);
        lemma_capture_lines_plain(cs);
        assert(all_plain(seq![section_line(Section::Captures)]));
        lemma_plain_append(seq![section_line(Section::Captures)], capture_lines(cs));
    } else {
        assert(capture_section_lines(cs) =~= Seq::<Seq<char>>::empty());
    }
}

proof fn lemma_assert_section_plain(xs: Seq<AssertV>)
    requires
        forall|i: int| 0 <= i < xs.len() ==> line_assert(#[trigger] xs[i]),
    ensures
        all_plain(assert_section_lines(xs)),
{
    if xs.len() > 0 {
        lemma_section_line_facts(Section::Asserts);
        lemma_assert_lines_plain(xs);
        assert(all_plain(seq![section_line(Section::Asserts)]));
        lemma_plain_append(seq![section_line(Section::Asserts)], assert_lines(xs));
    } else {
        assert(assert_section_lines(xs) =~= Seq::<Seq<char>>::empty());
    }
}

} // verus!
