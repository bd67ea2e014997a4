//! Reading back single lines as the serializer writes them: a query, a predicate value, a
//! predicate, and the line of an assert.

use vstd::prelude::*;
use crate::model::{AssertV, Method, PredicateV, PredicateValueV, QueryV, method_name, method_named, value_text};
use crate::num::{
    all_digits, decimal, digits_value, is_digit, is_float_literal, parse_signed, parse_unsigned, signed_decimal,
};
use crate::parser::{
    after_word, assert_of, closing_quote, closing_quote_from, first_word, is_request_line, is_response_line, kw_value,
    op_value, param_query, predicate_of, query_from_assert, query_of, quoted, quoted_after_word, section_of,
    simple_query, split_first_word, value_of,
};
use crate::round_trip::lemma_decimal_digits;
use crate::serializer::{predicate_text, query_text};
use crate::text::{
    ascii_upper, find_ws_from, is_ascii_text, is_ws, lemma_find_ws_from, lemma_tokens_word, lemma_trim_plain,
    starts_with, tokens, tokens_from, trim, trim_end, trim_start, upper_text,
};

verus! {

/// A text that can stand between double quotes and be read back: no `"`, no backslash.
pub open spec fn plain_arg(s: Seq<char>) -> bool {
    forall|j: int| 0 <= j < s.len() ==> #[trigger] s[j] != '"' && s[j] != '\\'
}

/// A text without line break, which can stand on one line of a Hurl file.
pub open spec fn one_line(s: Seq<char>) -> bool {
    forall|j: int| 0 <= j < s.len() ==> #[trigger] s[j] != '\n'
}

/// `s` in double quotes.
pub open spec fn in_quotes(s: Seq<char>) -> Seq<char> {
    seq!['"'] + s + seq!['"']
}

proof fn lemma_closing_quote_plain(t: Seq<char>, a: Seq<char>, i: int)
    requires
        plain_arg(a),
        1 <= i <= a.len() + 1,
        t.len() >= a.len() + 2,
        t.subrange(0, (a.len() + 2) as int) == in_quotes(a),
    ensures
        closing_quote_from(t, i) == Some((a.len() + 1) as int),
    decreases a.len() + 1 - i,
{
    assert(t[i] == t.subrange(0, (a.len() + 2) as int)[i]);
    if i <= a.len() {
        assert(t[i] == a[i - 1]);
        lemma_closing_quote_plain(t, a, i + 1);
    }
}

/// A text that opens with a plain argument in quotes reads back as that argument.
pub proof fn lemma_quoted_plain(t: Seq<char>, a: Seq<char>)
    requires
        plain_arg(a),
        t.len() >= a.len() + 2,
        t.subrange(0, (a.len() + 2) as int) == in_quotes(a),
    ensures
        closing_quote(t) == Some((a.len() + 1) as int),
        quoted(t) == Some(a),
{
    lemma_closing_quote_plain(t, a, 1);
    assert(t[0] == t.subrange(0, (a.len() + 2) as int)[0]);
    assert(t.subrange(1, (a.len() + 1) as int) =~= a) by {
        assert forall|j: int| 0 <= j < a.len() implies t.subrange(1, (a.len() + 1) as int)[j] == a[j] by {
            assert(t[1 + j] == t.subrange(0, (a.len() + 2) as int)[1 + j]);
        }
    }
}

/// The keyword that a query is written with.
pub open spec fn query_keyword(q: QueryV) -> Seq<char> {
    match q {
        QueryV::Status => "status"@,
        QueryV::Url => "url"@,
        QueryV::Body => "body"@,
        QueryV::Duration => "duration"@,
        QueryV::Bytes => "bytes"@,
        QueryV::Sha256 => "sha256"@,
        QueryV::Md5 => "md5"@,
        QueryV::Ip => "ip"@,
        QueryV::JsonPath(_) => "jsonpath"@,
        QueryV::Header(_) => "header"@,
        QueryV::XPath(_) => "xpath"@,
        QueryV::Regex(_) => "regex"@,
        QueryV::Cookie(_) => "cookie"@,
        QueryV::Variable(_) => "variable"@,
        QueryV::Certificate(_) => "certificate"@,
    }
}

/// The argument of a query that takes one.
pub open spec fn query_arg(q: QueryV) -> Option<Seq<char>> {
    match q {
        QueryV::JsonPath(a) => Some(a),
        QueryV::Header(a) => Some(a),
        QueryV::XPath(a) => Some(a),
        QueryV::Regex(a) => Some(a),
        QueryV::Cookie(a) => Some(a),
        QueryV::Variable(a) => Some(a),
        QueryV::Certificate(a) => Some(a),
        _ => None,
    }
}

/// A query that reads back as written: its argument, if it takes one, is plain.
pub open spec fn plain_query(q: QueryV) -> bool {
    match query_arg(q) {
        Some(a) => plain_arg(a),
        None => true,
    }
}

/// A query whose argument, if it takes one, holds no line break.
pub open spec fn one_line_query(q: QueryV) -> bool {
    match query_arg(q) {
        Some(a) => one_line(a),
        None => true,
    }
}

/// A keyword: ASCII lower-case letters and digits, opening with a letter.
pub open spec fn is_keyword(k: Seq<char>) -> bool {
    &&& k.len() > 0
    &&& 'a' <= k[0] && k[0] <= 'z'
    &&& forall|j: int| 0 <= j < k.len() ==> ('a' <= #[trigger] k[j] && k[j] <= 'z') || ('0' <= k[j] && k[j] <= '9')
}

proof fn lemma_keyword_chars(k: Seq<char>)
    requires
        is_keyword(k),
    ensures
        forall|j: int| 0 <= j < k.len() ==> !is_ws(#[trigger] k[j]) && k[j] != '"' && k[j] != '\n' && k[j] != ':',
        is_ascii_text(k),
{
    assert forall|j: int| 0 <= j < k.len() implies (#[trigger] k[j] as u32) < 128 by {
        assert(('a' <= k[j] && k[j] <= 'z') || ('0' <= k[j] && k[j] <= '9'));
    }
}

proof fn lemma_query_keyword(q: QueryV)
    ensures
        is_keyword(query_keyword(q)),
        query_text(q) == match query_arg(q) {
            Some(a) => query_keyword(q) + seq![' '] + in_quotes(a),
            None => query_keyword(q),
        },
{
    reveal_strlit("status");
    reveal_strlit("url");
    reveal_strlit("body");
    reveal_strlit("duration");
    reveal_strlit("bytes");
    reveal_strlit("sha256");
    reveal_strlit("md5");
    reveal_strlit("ip");
    reveal_strlit("jsonpath");
    reveal_strlit("header");
    reveal_strlit("xpath");
    reveal_strlit("regex");
    reveal_strlit("cookie");
    reveal_strlit("variable");
    reveal_strlit("certificate");
    reveal_strlit("jsonpath \"");
    reveal_strlit("header \"");
    reveal_strlit("xpath \"");
    reveal_strlit("regex \"");
    reveal_strlit("cookie \"");
    reveal_strlit("variable \"");
    reveal_strlit("certificate \"");
    reveal_strlit("\"");
    let k = query_keyword(q);
    assert forall|j: int| 0 <= j < k.len() implies ('a' <= #[trigger] k[j] && k[j] <= 'z') || ('0' <= k[j]
        && k[j] <= '9') by {}
    match query_arg(q) {
        Some(a) => {
            assert(query_text(q) =~= k + seq![' '] + in_quotes(a));
        },
        None => {
            assert(query_text(q) =~= k);
        },
    }
}

/// A keyword of a query without argument is a word of letters and digits.
proof fn lemma_simple_query_word(w: Seq<char>)
    requires
        simple_query(w) is Some,
    ensures
        forall|j: int| 0 <= j < w.len() ==> !is_ws(#[trigger] w[j]),
{
    reveal_strlit("status");
    reveal_strlit("url");
    reveal_strlit("body");
    reveal_strlit("duration");
    reveal_strlit("bytes");
    reveal_strlit("sha256");
    reveal_strlit("md5");
    reveal_strlit("ip");
}

/// The facts on the text of a plain query that a line holding it needs: not empty, a
/// keyword first, no white space at either end, and no line break where its argument has
/// none.
pub proof fn lemma_query_text_facts(q: QueryV)
    requires
        plain_query(q),
    ensures
        query_text(q).len() > 0,
        query_text(q).len() >= query_keyword(q).len(),
        query_text(q).subrange(0, query_keyword(q).len() as int) == query_keyword(q),
        query_text(q).len() > query_keyword(q).len() ==> query_text(q)[query_keyword(q).len() as int] == ' ',
        !is_ws(query_text(q)[0]),
        !is_ws(query_text(q).last()),
        'a' <= query_text(q)[0] && query_text(q)[0] <= 'z',
        one_line_query(q) ==> one_line(query_text(q)),
{
    lemma_query_keyword(q);
    let k = query_keyword(q);
    let t = query_text(q);
    lemma_keyword_chars(k);
    assert(t[0] == k[0]);
    match query_arg(q) {
        Some(a) => {
            assert(t.subrange(0, k.len() as int) =~= k);
            assert(t.last() == '"');
            if one_line_query(q) {
                assert forall|j: int| 0 <= j < t.len() implies #[trigger] t[j] != '\n' by {
                    if j < k.len() {
                        assert(t[j] == k[j]);
                    } else if k.len() + 1 < j < t.len() - 1 {
                        assert(t[j] == a[j - k.len() - 2]);
                    }
                }
            }
        },
        None => {
            assert(t.subrange(0, k.len() as int) =~= k);
        },
    }
}

/// A plain query reads back from its text.
pub proof fn lemma_query_read(q: QueryV)
    requires
        plain_query(q),
    ensures
        query_of(query_text(q)) == Some(q),
{
    lemma_query_keyword(q);
    lemma_query_text_facts(q);
    let k = query_keyword(q);
    let t = query_text(q);
    lemma_keyword_chars(k);
    lemma_trim_plain(t);
    reveal_strlit("status");
    reveal_strlit("url");
    reveal_strlit("body");
    reveal_strlit("duration");
    reveal_strlit("bytes");
    reveal_strlit("sha256");
    reveal_strlit("md5");
    reveal_strlit("ip");
    reveal_strlit("jsonpath");
    reveal_strlit("header");
    reveal_strlit("xpath");
    reveal_strlit("regex");
    reveal_strlit("cookie");
    reveal_strlit("variable");
    reveal_strlit("certificate");
    match query_arg(q) {
        None => {
            assert(simple_query(t) == Some(q));
        },
        Some(a) => {
            let n = k.len() as int;
            assert(simple_query(t) is None) by {
                if simple_query(t) is Some {
                    lemma_simple_query_word(t);
                    assert(!is_ws(t[n]));
                }
            }
            lemma_find_ws_from(t, 0);
            assert(find_ws_from(t, 0) == Some(n)) by {
                match find_ws_from(t, 0) {
                    Some(w) => {
                        if w < n {
                            assert(t[w] == k[w]);
                        }
                    },
                    None => {
                        assert(is_ws(t[n]));
                    },
                }
            }
            assert(t.take(n) =~= k);
            let rest = t.skip(n);
            assert(rest =~= seq![' '] + in_quotes(a));
            assert(trim_start(rest) == in_quotes(a)) by {
                assert(rest.drop_first() =~= in_quotes(a));
                assert(trim_start(in_quotes(a)) == in_quotes(a));
            }
            assert(trim(rest) == in_quotes(a));
            assert(split_first_word(t) == Some((k, rest)));
            assert(in_quotes(a).subrange(0, (a.len() + 2) as int) =~= in_quotes(a));
            lemma_quoted_plain(in_quotes(a), a);
            assert(param_query(k, a) == Some(q));
        },
    }
}

/// A float literal that reads back as a float: no white space at either end, no line
/// break, a float literal and no `i64` literal (`1` reads back as an integer), and not
/// opening with a quote nor one of the words `null`, `true` and `false` (which no float
/// literal is).
pub open spec fn plain_float(t: Seq<char>) -> bool {
    &&& t.len() > 0
    &&& !is_ws(t[0])
    &&& !is_ws(t.last())
    &&& t[0] != '"'
    &&& t != "null"@ && t != "true"@ && t != "false"@
    &&& forall|j: int| 0 <= j < t.len() ==> #[trigger] t[j] != '\n'
    &&& is_float_literal(t)
    &&& parse_signed(t, i64::MIN as int, i64::MAX as int) is None
}

/// A predicate value that reads back as written: a string with a plain text, an integer,
/// a float literal as `plain_float` says, a boolean or null.
pub open spec fn plain_value(v: PredicateValueV) -> bool {
    match v {
        PredicateValueV::String(s) => plain_arg(s),
        PredicateValueV::Float(t) => plain_float(t),
        _ => true,
    }
}

/// A value whose string, if it is one, holds no line break.
pub open spec fn one_line_value(v: PredicateValueV) -> bool {
    match v {
        PredicateValueV::String(s) => one_line(s),
        _ => true,
    }
}

proof fn lemma_signed_decimal(n: int)
    ensures
        signed_decimal(n).len() > 0,
        signed_decimal(n)[0] == '-' || is_digit(signed_decimal(n)[0]),
        is_digit(signed_decimal(n).last()),
        forall|j: int| 0 <= j < signed_decimal(n).len() ==> #[trigger] signed_decimal(n)[j] == '-' || is_digit(
            signed_decimal(n)[j],
        ),
        i64::MIN <= n <= i64::MAX ==> parse_signed(signed_decimal(n), i64::MIN as int, i64::MAX as int) == Some(n),
{
    let t = signed_decimal(n);
    if n < 0 {
        let m = (-n) as nat;
        lemma_decimal_digits(m);
        let d = decimal(m);
        assert(t =~= seq!['-'] + d);
        assert(t.drop_first() =~= d);
        assert(t.last() == d.last());
        assert(is_digit(d[d.len() - 1]));
        assert forall|j: int| 0 <= j < t.len() implies #[trigger] t[j] == '-' || is_digit(t[j]) by {
            if j > 0 {
                assert(t[j] == d[j - 1]);
            }
        }
    } else {
        lemma_decimal_digits(n as nat);
        assert(is_digit(t[0]));
        assert(is_digit(t[t.len() - 1]));
    }
}

/// The facts on the text of a plain value that a line holding it needs: not empty, no
/// white space at either end, and no line break where its string has none.
pub proof fn lemma_value_text_facts(v: PredicateValueV)
    requires
        plain_value(v),
    ensures
        value_text(v).len() > 0,
        !is_ws(value_text(v)[0]),
        !is_ws(value_text(v).last()),
        one_line_value(v) ==> one_line(value_text(v)),
{
    let t = value_text(v);
    match v {
        PredicateValueV::String(s) => {
            assert(t =~= in_quotes(s));
            assert(t.last() == '"');
            if one_line(s) {
                assert forall|j: int| 0 <= j < t.len() implies #[trigger] t[j] != '\n' by {
                    if 0 < j < t.len() - 1 {
                        assert(t[j] == s[j - 1]);
                    }
                }
            }
        },
        PredicateValueV::Integer(i) => {
            lemma_signed_decimal(i as int);
            assert forall|j: int| 0 <= j < t.len() implies #[trigger] t[j] != '\n' by {
                assert(t[j] == '-' || is_digit(t[j]));
            }
        },
        _ => {},
    }
}

/// A plain value reads back from its text.
pub proof fn lemma_value_read(v: PredicateValueV)
    requires
        plain_value(v),
    ensures
        value_of(value_text(v)) == Some(v),
{
    reveal_strlit("null");
    reveal_strlit("true");
    reveal_strlit("false");
    lemma_value_text_facts(v);
    let t = value_text(v);
    lemma_trim_plain(t);
    match v {
        PredicateValueV::String(s) => {
            assert(t =~= in_quotes(s));
            assert(t.subrange(0, (s.len() + 2) as int) =~= in_quotes(s));
            lemma_quoted_plain(t, s);
            assert(t != "null"@ && t != "true"@ && t != "false"@) by {
                assert(t[0] == '"');
            }
        },
        PredicateValueV::Integer(i) => {
            lemma_signed_decimal(i as int);
            assert(t != "null"@ && t != "true"@ && t != "false"@ && t[0] != '"') by {
                assert(t[0] == '-' || is_digit(t[0]));
            }
        },
        PredicateValueV::Bool(b) => {
            if b {
                assert(t =~= "true"@);
                assert(t != "null"@) by {
                    assert(t[0] != "null"@[0]);
                }
            } else {
                assert(t =~= "false"@);
                assert(t != "null"@) by {
                    assert(t[0] != "null"@[0]);
                }
                assert(t != "true"@) by {
                    assert(t[0] != "true"@[0]);
                }
            }
        },
        PredicateValueV::Null => {
            assert(t =~= "null"@);
        },
        PredicateValueV::Float(f) => {
            assert(t == f);
        },
    }
}

/// The word or operator that a predicate is written with (the whole text of a predicate
/// without value).
pub open spec fn predicate_word(p: PredicateV) -> Seq<char> {
    match p {
        PredicateV::Equal(_) => "=="@,
        PredicateV::NotEqual(_) => "!="@,
        PredicateV::GreaterThan(_) => ">"@,
        PredicateV::GreaterThanOrEqual(_) => ">="@,
        PredicateV::LessThan(_) => "<"@,
        PredicateV::LessThanOrEqual(_) => "<="@,
        PredicateV::Contains(_) => "contains"@,
        PredicateV::StartsWith(_) => "startsWith"@,
        PredicateV::EndsWith(_) => "endsWith"@,
        PredicateV::Matches(_) => "matches"@,
        PredicateV::Exists => "exists"@,
        PredicateV::NotExists => "not exists"@,
        PredicateV::Includes(_) => "includes"@,
        PredicateV::IsInteger => "isInteger"@,
        PredicateV::IsFloat => "isFloat"@,
        PredicateV::IsBoolean => "isBoolean"@,
        PredicateV::IsString => "isString"@,
        PredicateV::IsCollection => "isCollection"@,
        PredicateV::IsEmpty => "isEmpty"@,
    }
}

/// The value of a predicate that compares with one.
pub open spec fn predicate_value(p: PredicateV) -> Option<PredicateValueV> {
    match p {
        PredicateV::Equal(v) => Some(v),
        PredicateV::NotEqual(v) => Some(v),
        PredicateV::GreaterThan(v) => Some(v),
        PredicateV::GreaterThanOrEqual(v) => Some(v),
        PredicateV::LessThan(v) => Some(v),
        PredicateV::LessThanOrEqual(v) => Some(v),
        PredicateV::Contains(v) => Some(v),
        PredicateV::StartsWith(v) => Some(v),
        PredicateV::EndsWith(v) => Some(v),
        PredicateV::Includes(v) => Some(v),
        _ => None,
    }
}

/// A predicate whose value or pattern, if it has one, holds no line break.
pub open spec fn one_line_predicate(p: PredicateV) -> bool {
    match predicate_value(p) {
        Some(v) => one_line_value(v),
        None => match p {
            PredicateV::Matches(s) => one_line(s),
            _ => true,
        },
    }
}

/// A predicate that reads back as written: its value, if any, is plain, and so is the
/// pattern of `matches`.
pub open spec fn plain_predicate(p: PredicateV) -> bool {
    match predicate_value(p) {
        Some(v) => plain_value(v),
        None => match p {
            PredicateV::Matches(s) => plain_arg(s),
            _ => true,
        },
    }
}

proof fn lemma_predicate_shape(p: PredicateV)
    ensures
        predicate_text(p) == match predicate_value(p) {
            Some(v) => predicate_word(p) + seq![' '] + value_text(v),
            None => match p {
                PredicateV::Matches(s) => predicate_word(p) + seq![' '] + in_quotes(s),
                _ => predicate_word(p),
            },
        },
{
    reveal_strlit("== ");
    reveal_strlit("!= ");
    reveal_strlit("> ");
    reveal_strlit(">= ");
    reveal_strlit("< ");
    reveal_strlit("<= ");
    reveal_strlit("contains ");
    reveal_strlit("startsWith ");
    reveal_strlit("endsWith ");
    reveal_strlit("includes ");
    reveal_strlit("matches \"");
    reveal_strlit("\"");
    reveal_strlit("==");
    reveal_strlit("!=");
    reveal_strlit(">");
    reveal_strlit(">=");
    reveal_strlit("<");
    reveal_strlit("<=");
    reveal_strlit("contains");
    reveal_strlit("startsWith");
    reveal_strlit("endsWith");
    reveal_strlit("includes");
    reveal_strlit("matches");
    match p {
        PredicateV::Matches(s) => {
            assert(predicate_text(p) =~= predicate_word(p) + seq![' '] + in_quotes(s));
        },
        _ => match predicate_value(p) {
            Some(v) => {
                assert(predicate_text(p) =~= predicate_word(p) + seq![' '] + value_text(v));
            },
            None => {},
        },
    }
}

/// The facts on the text of a plain predicate that a line holding it needs: not empty, no
/// white space at either end, and no line break where its value or pattern has none.
pub proof fn lemma_predicate_text_facts(p: PredicateV)
    requires
        plain_predicate(p),
    ensures
        predicate_text(p).len() > 0,
        !is_ws(predicate_text(p)[0]),
        !is_ws(predicate_text(p).last()),
        one_line_predicate(p) ==> one_line(predicate_text(p)),
{
    reveal_strlit("==");
    reveal_strlit("!=");
    reveal_strlit(">");
    reveal_strlit(">=");
    reveal_strlit("<");
    reveal_strlit("<=");
    reveal_strlit("contains");
    reveal_strlit("startsWith");
    reveal_strlit("endsWith");
    reveal_strlit("includes");
    reveal_strlit("matches");
    reveal_strlit("exists");
    reveal_strlit("not exists");
    reveal_strlit("isInteger");
    reveal_strlit("isFloat");
    reveal_strlit("isBoolean");
    reveal_strlit("isString");
    reveal_strlit("isCollection");
    reveal_strlit("isEmpty");
    lemma_predicate_shape(p);
    let w = predicate_word(p);
    let t = predicate_text(p);
    assert(w.len() > 0 && !is_ws(w[0]) && !is_ws(w.last()));
    assert(forall|j: int| 0 <= j < w.len() ==> #[trigger] w[j] != '\n');
    assert(t[0] == w[0]);
    match predicate_value(p) {
        Some(v) => {
            lemma_value_text_facts(v);
            let vt = value_text(v);
            assert(t.last() == vt.last());
            if one_line_predicate(p) {
                assert forall|j: int| 0 <= j < t.len() implies #[trigger] t[j] != '\n' by {
                    if j < w.len() {
                        assert(t[j] == w[j]);
                    } else if j > w.len() {
                        assert(t[j] == vt[j - w.len() - 1]);
                    }
                }
            }
        },
        None => match p {
            PredicateV::Matches(s) => {
                let q = in_quotes(s);
                assert(t.last() == '"');
                if one_line(s) {
                    assert forall|j: int| 0 <= j < t.len() implies #[trigger] t[j] != '\n' by {
                        if j < w.len() {
                            assert(t[j] == w[j]);
                        } else if j > w.len() + 1 && j < t.len() - 1 {
                            assert(t[j] == s[j - w.len() - 2]);
                        }
                    }
                }
            },
            _ => {},
        },
    }
}

/// `t` does not open with `lit`: they differ at `j`.
proof fn lemma_not_starts(t: Seq<char>, lit: Seq<char>, j: int)
    requires
        0 <= j < lit.len(),
        j < t.len() ==> t[j] != lit[j],
    ensures
        !starts_with(t, lit),
{
    if starts_with(t, lit) {
        assert(t.subrange(0, lit.len() as int)[j] == t[j]);
    }
}

/// An operator, a space and a plain value read back as that value.
proof fn lemma_op_value_read(op: Seq<char>, v: PredicateValueV)
    requires
        plain_value(v),
    ensures
        op_value(op + seq![' '] + value_text(v), op) == Some(v),
{
    let vt = value_text(v);
    let t = op + seq![' '] + vt;
    lemma_value_text_facts(v);
    lemma_value_read(v);
    assert(t.subrange(0, op.len() as int) =~= op);
    assert(t.skip(op.len() as int) =~= seq![' '] + vt);
    assert((seq![' '] + vt).drop_first() =~= vt);
    lemma_trim_plain(vt);
    assert(trim_start(seq![' '] + vt) == trim_start(vt));
}

/// A keyword, a space and a plain value read back as that value.
proof fn lemma_kw_value_read(kw: Seq<char>, v: PredicateValueV)
    requires
        plain_value(v),
    ensures
        kw_value(kw + seq![' '] + value_text(v), kw) == Some(v),
{
    let vt = value_text(v);
    let t = kw + seq![' '] + vt;
    lemma_value_text_facts(v);
    lemma_value_read(v);
    assert(t.subrange(0, kw.len() as int) =~= kw);
    let rest = t.skip(kw.len() as int);
    assert(rest =~= seq![' '] + vt);
    assert(rest.drop_first() =~= vt);
    lemma_trim_plain(vt);
    assert(trim_start(rest) == trim_start(vt));
    assert(after_word(t, kw) == Some(rest));
}

proof fn lemma_word_predicate_read(p: PredicateV)
    requires
        predicate_value(p) is None,
        !(p is Matches),
    ensures
        predicate_of(predicate_text(p)) == Some(p),
{
    reveal_strlit("exists");
    reveal_strlit("not exists");
    reveal_strlit("isInteger");
    reveal_strlit("isFloat");
    reveal_strlit("isBoolean");
    reveal_strlit("isString");
    reveal_strlit("isCollection");
    reveal_strlit("isEmpty");
    lemma_predicate_shape(p);
    lemma_predicate_text_facts(p);
    let t = predicate_text(p);
    lemma_trim_plain(t);
    assert(t == predicate_word(p));
    match p {
        PredicateV::IsFloat => {
            assert(t != "isInteger"@);
        },
        PredicateV::IsBoolean => {
            assert(t[2] != "isInteger"@[2]);
            assert(t != "isInteger"@);
            assert(t != "isFloat"@);
        },
        PredicateV::IsString => {
            assert(t != "isInteger"@);
            assert(t != "isFloat"@);
            assert(t != "isBoolean"@);
        },
        PredicateV::IsCollection => {
            assert(t != "isInteger"@);
            assert(t != "isFloat"@);
            assert(t != "isBoolean"@);
            assert(t != "isString"@);
        },
        PredicateV::IsEmpty => {
            assert(t != "isInteger"@);
            assert(t[2] != "isFloat"@[2]);
            assert(t != "isFloat"@);
            assert(t != "isBoolean"@);
            assert(t != "isString"@);
            assert(t != "isCollection"@);
        },
        _ => {},
    }
}

/// The word predicates that come before the comparisons, none of which a text opening with
/// `c` can be when no such word opens with `c`.
proof fn lemma_not_word_predicate(t: Seq<char>)
    requires
        t.len() > 0,
        t[0] != 'e' && t[0] != 'n' && t[0] != 'i',
    ensures
        t != "exists"@,
        t != "not exists"@,
        t != "isInteger"@,
        t != "isFloat"@,
        t != "isBoolean"@,
        t != "isString"@,
        t != "isCollection"@,
        t != "isEmpty"@,
{
    reveal_strlit("exists");
    reveal_strlit("not exists");
    reveal_strlit("isInteger");
    reveal_strlit("isFloat");
    reveal_strlit("isBoolean");
    reveal_strlit("isString");
    reveal_strlit("isCollection");
    reveal_strlit("isEmpty");
}

proof fn lemma_op_predicate_read(p: PredicateV)
    requires
        plain_predicate(p),
        p is Equal || p is NotEqual || p is GreaterThan || p is GreaterThanOrEqual || p is LessThan
            || p is LessThanOrEqual,
    ensures
        predicate_of(predicate_text(p)) == Some(p),
{
    reveal_strlit("==");
    reveal_strlit("!=");
    reveal_strlit(">");
    reveal_strlit(">=");
    reveal_strlit("<");
    reveal_strlit("<=");
    lemma_predicate_shape(p);
    lemma_predicate_text_facts(p);
    let t = predicate_text(p);
    let w = predicate_word(p);
    let v = predicate_value(p)->Some_0;
    lemma_trim_plain(t);
    assert(t[0] == w[0]);
    lemma_not_word_predicate(t);
    lemma_op_value_read(w, v);
    assert(t[1] == seq![' '][0] || t[1] == w[1]);
    match p {
        PredicateV::Equal(_) => {},
        PredicateV::NotEqual(_) => {
            lemma_not_starts(t, "=="@, 0);
        },
        PredicateV::GreaterThanOrEqual(_) => {
            lemma_not_starts(t, "=="@, 0);
            lemma_not_starts(t, "!="@, 0);
        },
        PredicateV::LessThanOrEqual(_) => {
            lemma_not_starts(t, "=="@, 0);
            lemma_not_starts(t, "!="@, 0);
            lemma_not_starts(t, ">="@, 0);
        },
        PredicateV::GreaterThan(_) => {
            lemma_not_starts(t, "=="@, 0);
            lemma_not_starts(t, "!="@, 0);
            assert(t[1] == ' ');
            lemma_not_starts(t, ">="@, 1);
            lemma_not_starts(t, "<="@, 0);
        },
        _ => {
            lemma_not_starts(t, "=="@, 0);
            lemma_not_starts(t, "!="@, 0);
            lemma_not_starts(t, ">="@, 0);
            assert(t[1] == ' ');
            lemma_not_starts(t, "<="@, 1);
            lemma_not_starts(t, ">"@, 0);
        },
    }
}

proof fn lemma_kw_predicate_read(p: PredicateV)
    requires
        plain_predicate(p),
        p is Contains || p is StartsWith || p is EndsWith || p is Includes || p is Matches,
    ensures
        predicate_of(predicate_text(p)) == Some(p),
{
    reveal_strlit("==");
    reveal_strlit("!=");
    reveal_strlit(">");
    reveal_strlit(">=");
    reveal_strlit("<");
    reveal_strlit("<=");
    reveal_strlit("contains");
    reveal_strlit("startsWith");
    reveal_strlit("endsWith");
    reveal_strlit("includes");
    reveal_strlit("matches");
    reveal_strlit("exists");
    reveal_strlit("not exists");
    reveal_strlit("isInteger");
    reveal_strlit("isFloat");
    reveal_strlit("isBoolean");
    reveal_strlit("isString");
    reveal_strlit("isCollection");
    reveal_strlit("isEmpty");
    lemma_predicate_shape(p);
    lemma_predicate_text_facts(p);
    let t = predicate_text(p);
    let w = predicate_word(p);
    lemma_trim_plain(t);
    assert(t[0] == w[0]);
    assert(t[1] == w[1]);
    // none of the comparisons: they open with a sign
    lemma_not_starts(t, "=="@, 0);
    lemma_not_starts(t, "!="@, 0);
    lemma_not_starts(t, ">="@, 0);
    lemma_not_starts(t, "<="@, 0);
    lemma_not_starts(t, ">"@, 0);
    lemma_not_starts(t, "<"@, 0);
    match p {
        PredicateV::Contains(v) => {
            lemma_not_word_predicate(t);
            lemma_kw_value_read(w, v);
        },
        PredicateV::StartsWith(v) => {
            lemma_not_word_predicate(t);
            lemma_not_starts(t, "contains"@, 0);
            lemma_kw_value_read(w, v);
        },
        PredicateV::EndsWith(v) => {
            assert(t != "exists"@) by {
                assert(t[1] != "exists"@[1]);
            }
            lemma_not_starts(t, "contains"@, 0);
            lemma_not_starts(t, "startsWith"@, 0);
            lemma_kw_value_read(w, v);
        },
        PredicateV::Includes(v) => {
            assert(t[1] != "isInteger"@[1]);
            lemma_not_starts(t, "contains"@, 0);
            lemma_not_starts(t, "startsWith"@, 0);
            lemma_not_starts(t, "endsWith"@, 0);
            lemma_kw_value_read(w, v);
        },
        PredicateV::Matches(a) => {
            lemma_not_word_predicate(t);
            lemma_not_starts(t, "contains"@, 0);
            lemma_not_starts(t, "startsWith"@, 0);
            lemma_not_starts(t, "endsWith"@, 0);
            lemma_not_starts(t, "includes"@, 0);
            assert(kw_value(t, "contains"@) is None);
            assert(kw_value(t, "startsWith"@) is None);
            assert(kw_value(t, "endsWith"@) is None);
            assert(kw_value(t, "includes"@) is None);
            let q = in_quotes(a);
            assert(t.subrange(0, w.len() as int) =~= w);
            let rest = t.skip(w.len() as int);
            assert(rest =~= seq![' '] + q);
            assert(after_word(t, w) == Some(rest));
            assert(rest.drop_first() =~= q);
            assert(trim_start(q) == q);
            assert(trim_end(q) == q) by {
                assert(q.last() == '"');
            }
            assert(trim(rest) == q);
            assert(q.subrange(0, (a.len() + 2) as int) =~= q);
            lemma_quoted_plain(q, a);
        },
        _ => {},
    }
}

/// A plain predicate reads back from its text.
pub proof fn lemma_predicate_read(p: PredicateV)
    requires
        plain_predicate(p),
    ensures
        predicate_of(predicate_text(p)) == Some(p),
{
    if p is Equal || p is NotEqual || p is GreaterThan || p is GreaterThanOrEqual || p is LessThan
        || p is LessThanOrEqual {
        lemma_op_predicate_read(p);
    } else if p is Contains || p is StartsWith || p is EndsWith || p is Includes || p is Matches {
        lemma_kw_predicate_read(p);
    } else {
        lemma_word_predicate_read(p);
    }
}

/// A line that opens with none of the first letters of the keywords of queries without
/// argument opens with none of them.
proof fn lemma_no_simple_keyword(t: Seq<char>)
    requires
        t.len() > 0,
        t[0] != 's' && t[0] != 'u' && t[0] != 'b' && t[0] != 'd' && t[0] != 'm' && t[0] != 'i',
    ensures
        after_word(t, "status"@) is None,
        after_word(t, "url"@) is None,
        after_word(t, "body"@) is None,
        after_word(t, "duration"@) is None,
        after_word(t, "bytes"@) is None,
        after_word(t, "sha256"@) is None,
        after_word(t, "md5"@) is None,
        after_word(t, "ip"@) is None,
{
    reveal_strlit("status");
    reveal_strlit("url");
    reveal_strlit("body");
    reveal_strlit("duration");
    reveal_strlit("bytes");
    reveal_strlit("sha256");
    reveal_strlit("md5");
    reveal_strlit("ip");
    lemma_not_starts(t, "status"@, 0);
    lemma_not_starts(t, "url"@, 0);
    lemma_not_starts(t, "body"@, 0);
    lemma_not_starts(t, "duration"@, 0);
    lemma_not_starts(t, "bytes"@, 0);
    lemma_not_starts(t, "sha256"@, 0);
    lemma_not_starts(t, "md5"@, 0);
    lemma_not_starts(t, "ip"@, 0);
}

/// After a keyword that opens `t` and a space: the rest.
proof fn lemma_after_keyword(t: Seq<char>, k: Seq<char>, rest: Seq<char>)
    requires
        t == k + seq![' '] + rest,
    ensures
        after_word(t, k) == Some(seq![' '] + rest),
{
    assert(t.subrange(0, k.len() as int) =~= k);
    assert(t.skip(k.len() as int) =~= seq![' '] + rest);
}

/// A quoted plain argument after a keyword and a space, then a space and `pt`: the
/// argument and `pt`.
proof fn lemma_quoted_after_keyword(t: Seq<char>, k: Seq<char>, a: Seq<char>, pt: Seq<char>)
    requires
        t == k + seq![' '] + in_quotes(a) + seq![' '] + pt,
        plain_arg(a),
        pt.len() > 0,
        !is_ws(pt[0]),
        !is_ws(pt.last()),
    ensures
        quoted_after_word(t, k) == Some((a, pt)),
{
    let q = in_quotes(a);
    assert(t.subrange(0, k.len() as int) =~= k);
    let after = t.skip(k.len() as int);
    assert(after =~= seq![' '] + q + seq![' '] + pt);
    let b = q + seq![' '] + pt;
    assert(after.drop_first() =~= b);
    assert(b[0] == '"');
    assert(trim_start(b) == b);
    assert(trim_start(after) == b);
    assert(b.subrange(0, (a.len() + 2) as int) =~= q);
    lemma_quoted_plain(b, a);
    let e = (a.len() + 1) as int;
    assert(b.subrange(1, e) =~= a);
    assert(b.skip(e + 1) =~= seq![' '] + pt);
    assert((seq![' '] + pt).drop_first() =~= pt);
    lemma_trim_plain(pt);
    assert(trim_start(seq![' '] + pt) == trim_start(pt));
}

/// The query that opens the line of an assert, and the rest: for a plain query and a text
/// after it with no white space at either end.
pub proof fn lemma_query_from_assert_read(q: QueryV, pt: Seq<char>)
    requires
        plain_query(q),
        pt.len() > 0,
        !is_ws(pt[0]),
        !is_ws(pt.last()),
    ensures
        query_from_assert(query_text(q) + seq![' '] + pt) == Some((q, pt)),
{
    reveal_strlit("status");
    reveal_strlit("url");
    reveal_strlit("body");
    reveal_strlit("duration");
    reveal_strlit("bytes");
    reveal_strlit("sha256");
    reveal_strlit("md5");
    reveal_strlit("ip");
    reveal_strlit("jsonpath");
    reveal_strlit("header");
    reveal_strlit("xpath");
    reveal_strlit("regex");
    reveal_strlit("cookie");
    reveal_strlit("variable");
    reveal_strlit("certificate");
    lemma_query_keyword(q);
    let k = query_keyword(q);
    let t = query_text(q) + seq![' '] + pt;
    assert(t[0] == k[0]);
    assert(k.len() > 1 ==> t[1] == k[1]);
    match query_arg(q) {
        None => {
            assert(t =~= k + seq![' '] + pt);
            lemma_after_keyword(t, k, pt);
            assert((seq![' '] + pt).drop_first() =~= pt);
            lemma_trim_plain(pt);
            assert(trim_start(seq![' '] + pt) == trim_start(pt));
            match q {
                QueryV::Url => {
                    lemma_not_starts(t, "status"@, 0);
                },
                QueryV::Body => {
                    lemma_not_starts(t, "status"@, 0);
                    lemma_not_starts(t, "url"@, 0);
                },
                QueryV::Duration => {
                    lemma_not_starts(t, "status"@, 0);
                    lemma_not_starts(t, "url"@, 0);
                    lemma_not_starts(t, "body"@, 0);
                },
                QueryV::Bytes => {
                    lemma_not_starts(t, "status"@, 0);
                    lemma_not_starts(t, "url"@, 0);
                    lemma_not_starts(t, "body"@, 1);
                    lemma_not_starts(t, "duration"@, 0);
                },
                QueryV::Sha256 => {
                    lemma_not_starts(t, "status"@, 1);
                    lemma_not_starts(t, "url"@, 0);
                    lemma_not_starts(t, "body"@, 0);
                    lemma_not_starts(t, "duration"@, 0);
                    lemma_not_starts(t, "bytes"@, 0);
                },
                QueryV::Md5 => {
                    lemma_not_starts(t, "status"@, 0);
                    lemma_not_starts(t, "url"@, 0);
                    lemma_not_starts(t, "body"@, 0);
                    lemma_not_starts(t, "duration"@, 0);
                    lemma_not_starts(t, "bytes"@, 0);
                    lemma_not_starts(t, "sha256"@, 0);
                },
                QueryV::Ip => {
                    lemma_not_starts(t, "status"@, 0);
                    lemma_not_starts(t, "url"@, 0);
                    lemma_not_starts(t, "body"@, 0);
                    lemma_not_starts(t, "duration"@, 0);
                    lemma_not_starts(t, "bytes"@, 0);
                    lemma_not_starts(t, "sha256"@, 0);
                    lemma_not_starts(t, "md5"@, 0);
                },
                _ => {},
            }
        },
        Some(a) => {
            assert(t =~= k + seq![' '] + in_quotes(a) + seq![' '] + pt);
            lemma_quoted_after_keyword(t, k, a, pt);
            lemma_no_simple_keyword(t);
            match q {
                QueryV::Header(_) => {
                    lemma_not_starts(t, "jsonpath"@, 0);
                },
                QueryV::XPath(_) => {
                    lemma_not_starts(t, "jsonpath"@, 0);
                    lemma_not_starts(t, "header"@, 0);
                },
                QueryV::Regex(_) => {
                    lemma_not_starts(t, "jsonpath"@, 0);
                    lemma_not_starts(t, "header"@, 0);
                    lemma_not_starts(t, "xpath"@, 0);
                },
                QueryV::Cookie(_) => {
                    lemma_not_starts(t, "jsonpath"@, 0);
                    lemma_not_starts(t, "header"@, 0);
                    lemma_not_starts(t, "xpath"@, 0);
                    lemma_not_starts(t, "regex"@, 0);
                },
                QueryV::Variable(_) => {
                    lemma_not_starts(t, "jsonpath"@, 0);
                    lemma_not_starts(t, "header"@, 0);
                    lemma_not_starts(t, "xpath"@, 0);
                    lemma_not_starts(t, "regex"@, 0);
                    lemma_not_starts(t, "cookie"@, 0);
                },
                QueryV::Certificate(_) => {
                    lemma_not_starts(t, "jsonpath"@, 0);
                    lemma_not_starts(t, "header"@, 0);
                    lemma_not_starts(t, "xpath"@, 0);
                    lemma_not_starts(t, "regex"@, 0);
                    lemma_not_starts(t, "cookie"@, 1);
                    lemma_not_starts(t, "variable"@, 0);
                },
                _ => {},
            }
        },
    }
}

/// The keyword of a query, upper-cased, names no method.
proof fn lemma_keyword_not_method(q: QueryV)
    ensures
        method_named(upper_text(query_keyword(q))) is None,
{
    lemma_query_keyword(q);
    let k = query_keyword(q);
    lemma_keyword_chars(k);
    let u = upper_text(k);
    assert(u == k.map_values(|c: char| ascii_upper(c)));
    assert(u.len() == k.len());
    assert(u[0] == ascii_upper(k[0]));
    reveal_strlit("status");
    reveal_strlit("url");
    reveal_strlit("body");
    reveal_strlit("duration");
    reveal_strlit("bytes");
    reveal_strlit("sha256");
    reveal_strlit("md5");
    reveal_strlit("ip");
    reveal_strlit("jsonpath");
    reveal_strlit("header");
    reveal_strlit("xpath");
    reveal_strlit("regex");
    reveal_strlit("cookie");
    reveal_strlit("variable");
    reveal_strlit("certificate");
    assert(u != method_name(Method::Get)) by {
        if u.len() == 3 {
            assert(u[0] != 'G');
        }
    }
    assert(u != method_name(Method::Put)) by {
        if u.len() == 3 {
            assert(u[0] != 'P');
        }
    }
    assert(u != method_name(Method::Post)) by {
        if u.len() == 4 {
            assert(u[0] != 'P');
        }
    }
    assert(u != method_name(Method::Head)) by {
        if u.len() == 4 {
            assert(u[0] != 'H');
        }
    }
    assert(u != method_name(Method::Patch)) by {
        if u.len() == 5 {
            assert(u[0] != 'P');
        }
    }
    assert(u != method_name(Method::Delete)) by {
        if u.len() == 6 {
            assert(u[0] != 'D');
        }
    }
    assert(u != method_name(Method::Options)) by {
        assert(u.len() != 7);
    }
}

/// An assert that reads back as written: a plain query and a plain predicate.
pub open spec fn plain_assert(a: AssertV) -> bool {
    plain_query(a.query) && plain_predicate(a.predicate)
}

/// An assert that can stand on one line of a Hurl file and read back: plain, with no line
/// break in its query's argument nor in its predicate's value or pattern.
pub open spec fn line_assert(a: AssertV) -> bool {
    plain_assert(a) && one_line_query(a.query) && one_line_predicate(a.predicate)
}

/// The line of an assert: its query, a space, its predicate.
pub open spec fn assert_line(a: AssertV) -> Seq<char> {
    query_text(a.query) + seq![' '] + predicate_text(a.predicate)
}

/// The line of a plain assert is trimmed, is no comment, request line, status line or
/// section header, holds no line break unless its query or predicate has one, and reads
/// back as the assert.
pub proof fn lemma_assert_line_read(a: AssertV)
    requires
        plain_assert(a),
    ensures
        trim(assert_line(a)) == assert_line(a),
        assert_line(a).len() > 0,
        !is_ws(assert_line(a).last()),
        assert_line(a)[0] != '#',
        !is_request_line(assert_line(a)),
        !is_response_line(assert_line(a)),
        section_of(assert_line(a)) is None,
        line_assert(a) ==> one_line(assert_line(a)),
        assert_of(assert_line(a)) == Some(a),
{
    let q = a.query;
    let p = a.predicate;
    let qt = query_text(q);
    let pt = predicate_text(p);
    let t = assert_line(a);
    lemma_query_text_facts(q);
    lemma_predicate_text_facts(p);
    lemma_query_keyword(q);
    let k = query_keyword(q);
    lemma_keyword_chars(k);
    let n = k.len() as int;
    assert(t[0] == qt[0]);
    assert(t.last() == pt.last());
    lemma_trim_plain(t);
    if line_assert(a) {
        assert forall|j: int| 0 <= j < t.len() implies #[trigger] t[j] != '\n' by {
            if j < qt.len() {
                assert(t[j] == qt[j]);
            } else if j > qt.len() {
                assert(t[j] == pt[j - qt.len() - 1]);
            }
        }
    }
    // the first word is the keyword of the query
    assert forall|j: int| 0 <= j < n implies !is_ws(#[trigger] t[j]) by {
        assert(t[j] == qt.subrange(0, n)[j]);
    }
    assert(is_ws(t[n])) by {
        if qt.len() > n {
            assert(t[n] == qt[n]);
        } else {
            assert(t[n] == ' ');
        }
    }
    lemma_tokens_word(t, 0, n);
    assert(t.subrange(0, n) =~= k) by {
        assert forall|j: int| 0 <= j < n implies t.subrange(0, n)[j] == k[j] by {
            assert(t[j] == qt[j]);
            assert(qt[j] == qt.subrange(0, n)[j]);
        }
    }
    assert(first_word(t) == k);
    lemma_keyword_not_method(q);
    assert(!is_request_line(t));
    reveal_strlit("HTTP/");
    reveal_strlit("HTTP ");
    lemma_not_starts(t, "HTTP/"@, 0);
    lemma_not_starts(t, "HTTP "@, 0);
    reveal_strlit("[Query]");
    reveal_strlit("[QueryStringParams]");
    reveal_strlit("[Form]");
    reveal_strlit("[FormParams]");
    reveal_strlit("[Cookies]");
    reveal_strlit("[Options]");
    reveal_strlit("[Captures]");
    reveal_strlit("[Asserts]");
    assert(section_of(t) is None) by {
        assert(t[0] != '[');
    }
    lemma_query_from_assert_read(q, pt);
    lemma_trim_plain(pt);
    lemma_predicate_read(p);
}

} // verus!
