//! Writing the model back as Hurl text.

use vstd::prelude::*;
use crate::model::{
    method_name, value_text, KeyValue, KeyValueV, Body, BodyV, Capture, CaptureV, Assert, AssertV,
    Query, QueryV, Predicate, PredicateV, Request, RequestV, ResponseSpec, ResponseSpecV, Entry,
    EntryV, HurlFile, HurlFileV,
};
use crate::num::{decimal, push_decimal};
use crate::text::{chars_of, push_all, push_str, string_from_chars};

verus! {

/// A pair on its own line; a disabled pair is written as a comment.
pub open spec fn kv_text(kv: KeyValueV) -> Seq<char> {
    if kv.enabled {
        kv.key + ": "@ + kv.value + "\n"@
    } else {
        "# "@ + kv.key + ": "@ + kv.value + "\n"@
    }
}

pub open spec fn kvs_text(items: Seq<KeyValueV>) -> Seq<char>
    decreases items.len(),
{
    if items.len() == 0 {
        seq![]
    } else {
        kvs_text(items.drop_last()) + kv_text(items.last())
    }
}

/// A section header and its pairs; nothing for an empty section.
pub open spec fn section_text(name: Seq<char>, items: Seq<KeyValueV>) -> Seq<char> {
    if items.len() == 0 {
        seq![]
    } else {
        "["@ + name + "]\n"@ + kvs_text(items)
    }
}

pub open spec fn body_text(b: BodyV) -> Seq<char> {
    match b {
        BodyV::Json(s) => s + "\n"@,
        BodyV::Xml(s) => s + "\n"@,
        BodyV::Text(s) => "`"@ + s + "`\n"@,
        BodyV::File(p) => "file,"@ + p + ";\n"@,
        BodyV::Base64(c) => "base64,"@ + c + ";\n"@,
    }
}

pub open spec fn optional_body_text(b: Option<BodyV>) -> Seq<char> {
    match b {
        Some(b) => body_text(b),
        None => seq![],
    }
}

pub open spec fn request_text(r: RequestV) -> Seq<char> {
    method_name(r.method) + " "@ + r.url + "\n"@ + kvs_text(r.headers) + section_text(
        "Query"@,
        r.query_params,
    ) + section_text("Form"@, r.form_params) + section_text("Cookies"@, r.cookies)
        + section_text("Options"@, r.options) + optional_body_text(r.body)
}

pub open spec fn query_text(q: QueryV) -> Seq<char> {
    match q {
        QueryV::Status => "status"@,
        QueryV::Header(n) => "header \""@ + n + "\""@,
        QueryV::Cookie(n) => "cookie \""@ + n + "\""@,
        QueryV::Body => "body"@,
        QueryV::JsonPath(e) => "jsonpath \""@ + e + "\""@,
        QueryV::XPath(e) => "xpath \""@ + e + "\""@,
        QueryV::Regex(e) => "regex \""@ + e + "\""@,
        QueryV::Variable(n) => "variable \""@ + n + "\""@,
        QueryV::Duration => "duration"@,
        QueryV::Url => "url"@,
        QueryV::Bytes => "bytes"@,
        QueryV::Sha256 => "sha256"@,
        QueryV::Md5 => "md5"@,
        QueryV::Certificate(a) => "certificate \""@ + a + "\""@,
        QueryV::Ip => "ip"@,
    }
}

pub open spec fn predicate_text(p: PredicateV) -> Seq<char> {
    match p {
        PredicateV::Equal(v) => "== "@ + value_text(v),
        PredicateV::NotEqual(v) => "!= "@ + value_text(v),
        PredicateV::GreaterThan(v) => "> "@ + value_text(v),
        PredicateV::GreaterThanOrEqual(v) => ">= "@ + value_text(v),
        PredicateV::LessThan(v) => "< "@ + value_text(v),
        PredicateV::LessThanOrEqual(v) => "<= "@ + value_text(v),
        PredicateV::Contains(v) => "contains "@ + value_text(v),
        PredicateV::StartsWith(v) => "startsWith "@ + value_text(v),
        PredicateV::EndsWith(v) => "endsWith "@ + value_text(v),
        PredicateV::Matches(s) => "matches \""@ + s + "\""@,
        PredicateV::Exists => "exists"@,
        PredicateV::NotExists => "not exists"@,
        PredicateV::Includes(v) => "includes "@ + value_text(v),
        PredicateV::IsInteger => "isInteger"@,
        PredicateV::IsFloat => "isFloat"@,
        PredicateV::IsBoolean => "isBoolean"@,
        PredicateV::IsString => "isString"@,
        PredicateV::IsCollection => "isCollection"@,
        PredicateV::IsEmpty => "isEmpty"@,
    }
}

pub open spec fn captures_text(cs: Seq<CaptureV>) -> Seq<char>
    decreases cs.len(),
{
    if cs.len() == 0 {
        seq![]
    } else {
        captures_text(cs.drop_last()) + cs.last().name + ": "@ + query_text(cs.last().query) + "\n"@
    }
}

pub open spec fn asserts_text(xs: Seq<AssertV>) -> Seq<char>
    decreases xs.len(),
{
    if xs.len() == 0 {
        seq![]
    } else {
        asserts_text(xs.drop_last()) + query_text(xs.last().query) + " "@ + predicate_text(
            xs.last().predicate,
        ) + "\n"@
    }
}

pub open spec fn status_text(status: Option<u16>) -> Seq<char> {
    match status {
        Some(s) => "HTTP "@ + decimal(s as nat) + "\n"@,
        None => seq![],
    }
}

pub open spec fn captures_block(cs: Seq<CaptureV>) -> Seq<char> {
    if cs.len() == 0 {
        seq![]
    } else {
        "[Captures]\n"@ + captures_text(cs)
    }
}

pub open spec fn asserts_block(xs: Seq<AssertV>) -> Seq<char> {
    if xs.len() == 0 {
        seq![]
    } else {
        "[Asserts]\n"@ + asserts_text(xs)
    }
}

pub open spec fn response_text(r: ResponseSpecV) -> Seq<char> {
    status_text(r.status) + kvs_text(r.headers) + captures_block(r.captures) + asserts_block(r.asserts)
}

pub open spec fn comment_line(c: Option<Seq<char>>) -> Seq<char> {
    match c {
        Some(c) => "# "@ + c + "\n"@,
        None => seq![],
    }
}

pub open spec fn optional_response_text(r: Option<ResponseSpecV>) -> Seq<char> {
    match r {
        Some(r) => response_text(r),
        None => seq![],
    }
}

pub open spec fn entry_text(e: EntryV) -> Seq<char> {
    comment_line(e.comment) + request_text(e.request) + optional_response_text(e.response_spec)
}

/// The entries, one after the other with an empty line between two of them.
pub open spec fn entries_text(es: Seq<EntryV>) -> Seq<char>
    decreases es.len(),
{
    if es.len() == 0 {
        seq![]
    } else if es.len() == 1 {
        entry_text(es[0])
    } else {
        entries_text(es.drop_last()) + "\n"@ + entry_text(es.last())
    }
}

/// The Hurl text of a file.
pub open spec fn serialize_spec(f: HurlFileV) -> Seq<char> {
    entries_text(f.entries)
}

fn push_string(out: &mut Vec<char>, s: &String)
    ensures
        final(out)@ == old(out)@ + s@,
{
    let c = chars_of(s.as_str());
    push_all(out, c.as_slice());
}

fn serialize_kv(kv: &KeyValue, out: &mut Vec<char>)
    ensures
        final(out)@ == old(out)@ + kv_text(kv@),
{
    let ghost o = out@;
    if kv.enabled {
        push_string(out, &kv.key);
        push_str(out, ": ");
        push_string(out, &kv.value);
        push_str(out, "\n");
        proof {
            assert(out@ =~= o + kv_text(kv@));
        }
    } else {
        push_str(out, "# ");
        push_string(out, &kv.key);
        push_str(out, ": ");
        push_string(out, &kv.value);
        push_str(out, "\n");
        proof {
            assert(out@ =~= o + kv_text(kv@));
        }
    }
}

fn serialize_kvs(items: &Vec<KeyValue>, out: &mut Vec<char>)
    ensures
        final(out)@ == old(out)@ + kvs_text(items.deep_view()),
{
    let ghost o = out@;
    let mut i: usize = 0;
    while i < items.len()
        invariant
            i <= items@.len(),
            out@ == o + kvs_text(items.deep_view().take(i as int)),
        decreases items.len() - i,
    {
        serialize_kv(&items[i], out);
        proof {
            let next = items.deep_view().take(i + 1);
            assert(next.drop_last() =~= items.deep_view().take(i as int));
            assert(out@ =~= o + kvs_text(next));
        }
        i = i + 1;
    }
    proof {
        assert(items.deep_view().take(items@.len() as int) =~= items.deep_view());
    }
}

fn serialize_section(name: &str, items: &Vec<KeyValue>, out: &mut Vec<char>)
    ensures
        final(out)@ == old(out)@ + section_text(name@, items.deep_view()),
{
    if items.len() == 0 {
        proof {
            assert(old(out)@ + section_text(name@, items.deep_view()) =~= old(out)@);
        }
        return;
    }
    let ghost o = out@;
    push_str(out, "[");
    push_str(out, name);
    push_str(out, "]\n");
    serialize_kvs(items, out);
    proof {
        assert(out@ =~= o + section_text(name@, items.deep_view()));
    }
}

fn serialize_body(body: &Body, out: &mut Vec<char>)
    ensures
        final(out)@ == old(out)@ + body_text(body@),
{
    let ghost o = out@;
    match body {
        Body::Json(s) => {
            push_string(out, s);
            push_str(out, "\n");
        },
        Body::Xml(s) => {
            push_string(out, s);
            push_str(out, "\n");
        },
        Body::Text(s) => {
            push_str(out, "`");
            push_string(out, s);
            push_str(out, "`\n");
        },
        Body::File(p) => {
            push_str(out, "file,");
            push_string(out, p);
            push_str(out, ";\n");
        },
        Body::Base64(c) => {
            push_str(out, "base64,");
            push_string(out, c);
            push_str(out, ";\n");
        },
    }
    proof {
        assert(out@ =~= o + body_text(body@));
    }
}

fn serialize_request(req: &Request, out: &mut Vec<char>)
    ensures
        final(out)@ == old(out)@ + request_text(req@),
{
    let ghost o = out@;
    let ghost r = req@;
    push_str(out, req.method.as_str());
    push_str(out, " ");
    push_string(out, &req.url);
    push_str(out, "\n");
    let ghost p1 = method_name(r.method) + " "@ + r.url + "\n"@;
    proof {
        assert(out@ =~= o + p1);
    }
    serialize_kvs(&req.headers, out);
    let ghost p2 = p1 + kvs_text(r.headers);
    proof {
        assert(out@ =~= o + p2);
    }
    serialize_section("Query", &req.query_params, out);
    let ghost p3 = p2 + section_text("Query"@, r.query_params);
    proof {
        assert(out@ =~= o + p3);
    }
    serialize_section("Form", &req.form_params, out);
    let ghost p4 = p3 + section_text("Form"@, r.form_params);
    proof {
        assert(out@ =~= o + p4);
    }
    serialize_section("Cookies", &req.cookies, out);
    let ghost p5 = p4 + section_text("Cookies"@, r.cookies);
    proof {
        assert(out@ =~= o + p5);
    }
    serialize_section("Options", &req.options, out);
    let ghost p6 = p5 + section_text("Options"@, r.options);
    proof {
        assert(out@ =~= o + p6);
    }
    if let Some(body) = &req.body {
        serialize_body(body, out);
    }
    proof {
        assert(out@ =~= o + (p6 + optional_body_text(r.body)));
    }
}

fn serialize_query_to(q: &Query, out: &mut Vec<char>)
    ensures
        final(out)@ == old(out)@ + query_text(q@),
{
    let ghost o = out@;
    match q {
        Query::Status => push_str(out, "status"),
        Query::Header(n) => {
            push_str(out, "header \"");
            push_string(out, n);
            push_str(out, "\"");
        },
        Query::Cookie(n) => {
            push_str(out, "cookie \"");
            push_string(out, n);
            push_str(out, "\"");
        },
        Query::Body => push_str(out, "body"),
        Query::JsonPath(e) => {
            push_str(out, "jsonpath \"");
            push_string(out, e);
            push_str(out, "\"");
        },
        Query::XPath(e) => {
            push_str(out, "xpath \"");
            push_string(out, e);
            push_str(out, "\"");
        },
        Query::Regex(e) => {
            push_str(out, "regex \"");
            push_string(out, e);
            push_str(out, "\"");
        },
        Query::Variable(n) => {
            push_str(out, "variable \"");
            push_string(out, n);
            push_str(out, "\"");
        },
        Query::Duration => push_str(out, "duration"),
        Query::Url => push_str(out, "url"),
        Query::Bytes => push_str(out, "bytes"),
        Query::Sha256 => push_str(out, "sha256"),
        Query::Md5 => push_str(out, "md5"),
        Query::Certificate(a) => {
            push_str(out, "certificate \"");
            push_string(out, a);
            push_str(out, "\"");
        },
        Query::Ip => push_str(out, "ip"),
    }
    proof {
        assert(out@ =~= o + query_text(q@));
    }
}

/// The text of a query, as a capture or an assert writes it.
pub fn serialize_query(q: &Query) -> (r: String)
    ensures
        r@ == query_text(q@),
{
    let mut out: Vec<char> = Vec::new();
    serialize_query_to(q, &mut out);
    proof {
        assert(out@ =~= query_text(q@));
    }
    string_from_chars(out.as_slice())
}

fn serialize_predicate_to(p: &Predicate, out: &mut Vec<char>)
    ensures
        final(out)@ == old(out)@ + predicate_text(p@),
{
    let ghost o = out@;
    match p {
        Predicate::Equal(v) => {
            push_str(out, "== ");
            v.write_to(out);
        },
        Predicate::NotEqual(v) => {
            push_str(out, "!= ");
            v.write_to(out);
        },
        Predicate::GreaterThan(v) => {
            push_str(out, "> ");
            v.write_to(out);
        },
        Predicate::GreaterThanOrEqual(v) => {
            push_str(out, ">= ");
            v.write_to(out);
        },
        Predicate::LessThan(v) => {
            push_str(out, "< ");
            v.write_to(out);
        },
        Predicate::LessThanOrEqual(v) => {
            push_str(out, "<= ");
            v.write_to(out);
        },
        Predicate::Contains(v) => {
            push_str(out, "contains ");
            v.write_to(out);
        },
        Predicate::StartsWith(v) => {
            push_str(out, "startsWith ");
            v.write_to(out);
        },
        Predicate::EndsWith(v) => {
            push_str(out, "endsWith ");
            v.write_to(out);
        },
        Predicate::Matches(s) => {
            push_str(out, "matches \"");
            push_string(out, s);
            push_str(out, "\"");
        },
        Predicate::Exists => push_str(out, "exists"),
        Predicate::NotExists => push_str(out, "not exists"),
        Predicate::Includes(v) => {
            push_str(out, "includes ");
            v.write_to(out);
        },
        Predicate::IsInteger => push_str(out, "isInteger"),
        Predicate::IsFloat => push_str(out, "isFloat"),
        Predicate::IsBoolean => push_str(out, "isBoolean"),
        Predicate::IsString => push_str(out, "isString"),
        Predicate::IsCollection => push_str(out, "isCollection"),
        Predicate::IsEmpty => push_str(out, "isEmpty"),
    }
    proof {
        assert(out@ =~= o + predicate_text(p@));
    }
}

/// The text of a predicate, as an assert writes it.
pub fn serialize_predicate(p: &Predicate) -> (r: String)
    ensures
        r@ == predicate_text(p@),
{
    let mut out: Vec<char> = Vec::new();
    serialize_predicate_to(p, &mut out);
    proof {
        assert(out@ =~= predicate_text(p@));
    }
    string_from_chars(out.as_slice())
}

fn serialize_captures(caps: &Vec<Capture>, out: &mut Vec<char>)
    ensures
        final(out)@ == old(out)@ + captures_block(caps.deep_view()),
{
    if caps.len() == 0 {
        proof {
            assert(old(out)@ + captures_block(caps.deep_view()) =~= old(out)@);
        }
        return;
    }
    let ghost o = out@;
    push_str(out, "[Captures]\n");
    let ghost c0 = out@;
    let mut i: usize = 0;
    while i < caps.len()
        invariant
            i <= caps@.len(),
            out@ == c0 + captures_text(caps.deep_view().take(i as int)),
        decreases caps.len() - i,
    {
        let cap = &caps[i];
        let ghost before = out@;
        push_string(out, &cap.name);
        push_str(out, ": ");
        serialize_query_to(&cap.query, out);
        push_str(out, "\n");
        proof {
            let next = caps.deep_view().take(i + 1);
            assert(next.drop_last() =~= caps.deep_view().take(i as int));
            assert(next.last() == cap@);
            assert(out@ =~= before + (cap@.name + ": "@ + query_text(cap@.query) + "\n"@));
            assert(out@ =~= c0 + captures_text(next));
        }
        i = i + 1;
    }
    proof {
        assert(caps.deep_view().take(caps@.len() as int) =~= caps.deep_view());
        assert(out@ =~= o + captures_block(caps.deep_view()));
    }
}

fn serialize_asserts(xs: &Vec<Assert>, out: &mut Vec<char>)
    ensures
        final(out)@ == old(out)@ + asserts_block(xs.deep_view()),
{
    if xs.len() == 0 {
        proof {
            assert(old(out)@ + asserts_block(xs.deep_view()) =~= old(out)@);
        }
        return;
    }
    let ghost o = out@;
    push_str(out, "[Asserts]\n");
    let ghost d0 = out@;
    let mut i: usize = 0;
    while i < xs.len()
        invariant
            i <= xs@.len(),
            out@ == d0 + asserts_text(xs.deep_view().take(i as int)),
        decreases xs.len() - i,
    {
        let x = &xs[i];
        let ghost before = out@;
        serialize_query_to(&x.query, out);
        push_str(out, " ");
        serialize_predicate_to(&x.predicate, out);
        push_str(out, "\n");
        proof {
            let next = xs.deep_view().take(i + 1);
            assert(next.drop_last() =~= xs.deep_view().take(i as int));
            assert(next.last() == x@);
            assert(out@ =~= before + (query_text(x@.query) + " "@ + predicate_text(x@.predicate) + "\n"@));
            assert(out@ =~= d0 + asserts_text(next));
        }
        i = i + 1;
    }
    proof {
        assert(xs.deep_view().take(xs@.len() as int) =~= xs.deep_view());
        assert(out@ =~= o + asserts_block(xs.deep_view()));
    }
}

fn serialize_response(resp: &ResponseSpec, out: &mut Vec<char>)
    ensures
        final(out)@ == old(out)@ + response_text(resp@),
{
    let ghost o = out@;
    let ghost r = resp@;
    if let Some(status) = resp.status {
        push_str(out, "HTTP ");
        push_decimal(out, status as u64);
        push_str(out, "\n");
    }
    proof {
        assert(out@ =~= o + status_text(r.status));
    }
    serialize_kvs(&resp.headers, out);
    let ghost p2 = status_text(r.status) + kvs_text(r.headers);
    proof {
        assert(out@ =~= o + p2);
    }
    serialize_captures(&resp.captures, out);
    let ghost p3 = p2 + captures_block(r.captures);
    proof {
        assert(out@ =~= o + p3);
    }
    serialize_asserts(&resp.asserts, out);
    proof {
        assert(out@ =~= o + (p3 + asserts_block(r.asserts)));
    }
}

fn serialize_entry(entry: &Entry, out: &mut Vec<char>)
    ensures
        final(out)@ == old(out)@ + entry_text(entry@),
{
    let ghost o = out@;
    if let Some(comment) = &entry.comment {
        push_str(out, "# ");
        push_string(out, comment);
        push_str(out, "\n");
    }
    serialize_request(&entry.request, out);
    if let Some(response) = &entry.response_spec {
        serialize_response(response, out);
    }
    proof {
        assert(out@ =~= o + entry_text(entry@));
    }
}

/// The Hurl text of a file: its entries with an empty line between two of them.
pub fn serialize(file: &HurlFile) -> (r: String)
    ensures
        r@ == serialize_spec(file@),
{
    let mut out: Vec<char> = Vec::new();
    let mut i: usize = 0;
    while i < file.entries.len()
        invariant
            i <= file.entries@.len(),
            out@ == entries_text(file.entries.deep_view().take(i as int)),
        decreases file.entries.len() - i,
    {
        let ghost o = out@;
        if i > 0 {
            out.push('\n');
        }
        serialize_entry(&file.entries[i], &mut out);
        proof {
            reveal_strlit("\n");
            let next = file.entries.deep_view().take(i + 1);
            assert(next.drop_last() =~= file.entries.deep_view().take(i as int));
            assert(next.last() == file.entries@[i as int]@);
            if i == 0 {
                assert(out@ =~= entry_text(next[0]));
            } else {
                assert(out@ =~= o + "\n"@ + entry_text(next.last()));
            }
        }
        i = i + 1;
    }
    proof {
        assert(file.entries.deep_view().take(file.entries@.len() as int) =~= file.entries.deep_view());
    }
    string_from_chars(out.as_slice())
}

} // verus!
