//! Suggesting the expected response of an entry from a response that was received.

use vstd::prelude::*;
use crate::json::{JsonValue, parse_json, parsed_json};
use crate::num::{eq_ignore_ascii_case, ascii_lower};
use crate::text::{chars_of, find, find_char, lemma_find_from, trim, trim_chars, push_all, string_from_chars};

verus! {

/// The parts of a received response that the suggestion reads.
#[derive(Debug, Clone)]
pub struct ResponseSnapshot {
    pub status: u16,
    pub headers: Vec<(String, String)>,
    pub body: String,
}

/// What to suggest.
#[derive(Debug, Clone, Copy, PartialEq, Eq, Structural)]
pub struct BuildOptions {
    pub include_content_type_assert: bool,
    pub max_json_field_asserts: usize,
}

impl Default for BuildOptions {
    fn default() -> (r: BuildOptions)
        ensures
            r == (BuildOptions { include_content_type_assert: true, max_json_field_asserts: 8 }),
    {
        BuildOptions { include_content_type_assert: true, max_json_field_asserts: 8 }
    }
}

/// A predicate on the value at a JSON path.
#[derive(Debug, Clone, Copy, PartialEq, Eq, Structural)]
pub enum SuggestedPredicate {
    Exists,
    IsInteger,
    IsFloat,
    IsBoolean,
    IsString,
    IsCollection,
    IsEmpty,
}

/// A suggested assert.
#[derive(Debug, Clone, PartialEq, Eq)]
pub enum SuggestedAssert {
    HeaderContains { header: String, value: String },
    JsonPath { expression: String, predicate: SuggestedPredicate },
}

pub enum SuggestedAssertV {
    HeaderContains { header: Seq<char>, value: Seq<char> },
    JsonPath { expression: Seq<char>, predicate: SuggestedPredicate },
}

impl View for SuggestedAssert {
    type V = SuggestedAssertV;

    open spec fn view(&self) -> SuggestedAssertV {
        match self {
            SuggestedAssert::HeaderContains { header, value } => SuggestedAssertV::HeaderContains {
                header: header@,
                value: value@,
            },
            SuggestedAssert::JsonPath { expression, predicate } => SuggestedAssertV::JsonPath {
                expression: expression@,
                predicate: *predicate,
            },
        }
    }
}

impl DeepView for SuggestedAssert {
    type V = SuggestedAssertV;

    open spec fn deep_view(&self) -> SuggestedAssertV {
        self@
    }
}

/// The suggested expected response: a status and asserts.
#[derive(Debug, Clone)]
pub struct SuggestedResponseSpec {
    pub status: u16,
    pub asserts: Vec<SuggestedAssert>,
}

pub open spec fn is_ascii_alpha(c: char) -> bool {
    ('a' <= c && c <= 'z') || ('A' <= c && c <= 'Z')
}

pub open spec fn is_ascii_alnum(c: char) -> bool {
    is_ascii_alpha(c) || ('0' <= c && c <= '9')
}

/// A key that a JSON path can name after a dot: an ASCII letter or `_`, then ASCII letters,
/// digits or `_`.
pub open spec fn is_simple_key(k: Seq<char>) -> bool {
    &&& k.len() > 0
    &&& (is_ascii_alpha(k[0]) || k[0] == '_')
    &&& forall|i: int| 1 <= i < k.len() ==> (is_ascii_alnum(#[trigger] k[i]) || k[i] == '_')
}

pub(crate) fn is_simple_json_key(key: &[char]) -> (r: bool)
    ensures
        r == is_simple_key(key@),
{
    if key.len() == 0 {
        return false;
    }
    let c = key[0];
    if !(('a' <= c && c <= 'z') || ('A' <= c && c <= 'Z') || c == '_') {
        return false;
    }
    let mut i: usize = 1;
    while i < key.len()
        invariant
            1 <= i <= key@.len(),
            forall|j: int| 1 <= j < i ==> (is_ascii_alnum(#[trigger] key@[j]) || key@[j] == '_'),
        decreases key.len() - i,
    {
        let d = key[i];
        if !(('a' <= d && d <= 'z') || ('A' <= d && d <= 'Z') || ('0' <= d && d <= '9') || d == '_') {
            return false;
        }
        i = i + 1;
    }
    true
}

/// `base.key` for a simple key.
pub open spec fn dot_path_spec(base: Seq<char>, key: Seq<char>) -> Option<Seq<char>> {
    if is_simple_key(key) {
        Some(base + seq!['.'] + key)
    } else {
        None
    }
}

fn dot_path(base: &[char], key: &[char]) -> (r: Option<Vec<char>>)
    ensures
        match r {
            Some(p) => dot_path_spec(base@, key@) == Some(p@),
            None => dot_path_spec(base@, key@) is None,
        },
{
    if is_simple_json_key(key) {
        let mut out = vstd::slice::slice_to_vec(base);
        out.push('.');
        push_all(&mut out, key);
        Some(out)
    } else {
        None
    }
}

/// The predicate that describes a JSON value's type; none for `null`.
pub open spec fn predicate_for(v: JsonValue) -> Option<SuggestedPredicate> {
    match v {
        JsonValue::Null => None,
        JsonValue::Bool(_) => Some(SuggestedPredicate::IsBoolean),
        JsonValue::Number { is_i64, is_u64, .. } => if is_i64 || is_u64 {
            Some(SuggestedPredicate::IsInteger)
        } else {
            Some(SuggestedPredicate::IsFloat)
        },
        JsonValue::Str(_) => Some(SuggestedPredicate::IsString),
        JsonValue::Array(items) => if items@.len() == 0 {
            Some(SuggestedPredicate::IsEmpty)
        } else {
            Some(SuggestedPredicate::IsCollection)
        },
        JsonValue::Object(m) => if m@.len() == 0 {
            Some(SuggestedPredicate::IsEmpty)
        } else {
            Some(SuggestedPredicate::IsCollection)
        },
    }
}

fn predicate_for_value(v: &JsonValue) -> (r: Option<SuggestedPredicate>)
    ensures
        r == predicate_for(*v),
{
    match v {
        JsonValue::Null => None,
        JsonValue::Bool(_) => Some(SuggestedPredicate::IsBoolean),
        JsonValue::Number { is_i64, is_u64, .. } => {
            if *is_i64 || *is_u64 {
                Some(SuggestedPredicate::IsInteger)
            } else {
                Some(SuggestedPredicate::IsFloat)
            }
        },
        JsonValue::Str(_) => Some(SuggestedPredicate::IsString),
        JsonValue::Array(items) => {
            if items.len() == 0 {
                Some(SuggestedPredicate::IsEmpty)
            } else {
                Some(SuggestedPredicate::IsCollection)
            }
        },
        JsonValue::Object(m) => {
            if m.len() == 0 {
                Some(SuggestedPredicate::IsEmpty)
            } else {
                Some(SuggestedPredicate::IsCollection)
            }
        },
    }
}

/// The predicate suggested for a value names its kind: `IsEmpty` exactly for an empty
/// array or object, `IsCollection` exactly for a non-empty one, `IsBoolean` for a boolean,
/// `IsString` for a string, `IsInteger` for a number that is an integer and `IsFloat` for
/// any other number; `null` gets none.
pub proof fn lemma_predicate_kinds(v: JsonValue)
    ensures
        (predicate_for(v) == Some(SuggestedPredicate::IsEmpty)) <==> (
            (v is Array && v->Array_0@.len() == 0) || (v is Object && v->Object_0@.len() == 0)),
        (predicate_for(v) == Some(SuggestedPredicate::IsCollection)) <==> (
            (v is Array && v->Array_0@.len() > 0) || (v is Object && v->Object_0@.len() > 0)),
        (predicate_for(v) == Some(SuggestedPredicate::IsBoolean)) <==> v is Bool,
        (predicate_for(v) == Some(SuggestedPredicate::IsString)) <==> v is Str,
        (predicate_for(v) == Some(SuggestedPredicate::IsInteger)) <==> (v is Number && (v->is_i64 || v->is_u64)),
        (predicate_for(v) == Some(SuggestedPredicate::IsFloat)) <==> (v is Number && !v->is_i64 && !v->is_u64),
        predicate_for(v) is None <==> v is Null,
        predicate_for(v) != Some(SuggestedPredicate::Exists),
{
}

/// The asserts for the members of an object under `base`, in order, at most `remaining`
/// of them; members whose key is not simple or whose value is `null` are left out.
pub open spec fn field_asserts(base: Seq<char>, members: Seq<(String, JsonValue)>, remaining: nat) -> Seq<SuggestedAssertV>
    decreases members.len(),
{
    if members.len() == 0 || remaining == 0 {
        seq![]
    } else {
        let (k, v) = members[0];
        match (dot_path_spec(base, k@), predicate_for(v)) {
            (Some(p), Some(pr)) => seq![SuggestedAssertV::JsonPath { expression: p, predicate: pr }]
                + field_asserts(base, members.drop_first(), (remaining - 1) as nat),
            _ => field_asserts(base, members.drop_first(), remaining),
        }
    }
}

fn push_field_asserts(base: &[char], members: &Vec<(String, JsonValue)>, max: usize, out: &mut Vec<SuggestedAssert>)
    ensures
        final(out).deep_view() == old(out).deep_view() + field_asserts(base@, members@, max as nat),
{
    let ghost o = out.deep_view();
    let mut remaining = max;
    let mut i: usize = 0;
    proof {
        assert(members@.skip(0) =~= members@);
        assert(o == out.deep_view());
    }
    while i < members.len() && remaining > 0
        invariant
            i <= members@.len(),
            o + field_asserts(base@, members@, max as nat) == out.deep_view() + field_asserts(
                base@,
                members@.skip(i as int),
                remaining as nat,
            ),
        decreases members.len() - i,
    {
        proof {
            assert(members@.skip(i as int).drop_first() =~= members@.skip(i + 1));
            assert(members@.skip(i as int)[0] == members@[i as int]);
        }
        let key = chars_of(members[i].0.as_str());
        if let Some(path) = dot_path(base, key.as_slice()) {
            if let Some(predicate) = predicate_for_value(&members[i].1) {
                let a = SuggestedAssert::JsonPath { expression: string_from_chars(path.as_slice()), predicate };
                let ghost before = out.deep_view();
                out.push(a);
                proof {
                    assert(out.deep_view() =~= before.push(a@));
                    assert(before + field_asserts(base@, members@.skip(i as int), remaining as nat)
                        =~= out.deep_view() + field_asserts(base@, members@.skip(i + 1), (remaining - 1) as nat));
                }
                remaining = remaining - 1;
            }
        }
        i = i + 1;
    }
    proof {
        if i >= members@.len() {
            assert(members@.skip(i as int) =~= Seq::<(String, JsonValue)>::empty());
        }
        assert(field_asserts(base@, members@.skip(i as int), remaining as nat) =~= Seq::<SuggestedAssertV>::empty());
        assert(out.deep_view() =~= o + field_asserts(base@, members@, max as nat));
    }
}

pub open spec fn first_item_assert(first: JsonValue) -> Seq<SuggestedAssertV> {
    match predicate_for(first) {
        Some(p) => seq![SuggestedAssertV::JsonPath { expression: "$[0]"@, predicate: p }],
        None => seq![],
    }
}

pub open spec fn first_item_fields(first: JsonValue, max: nat) -> Seq<SuggestedAssertV> {
    match first {
        JsonValue::Object(m) => field_asserts("$[0]"@, m@, max),
        _ => seq![],
    }
}

/// The asserts on the fields of a parsed body, at most `max` field asserts.
pub open spec fn json_field_asserts(v: JsonValue, max: nat) -> Seq<SuggestedAssertV> {
    match v {
        JsonValue::Object(m) => field_asserts("$"@, m@, max),
        JsonValue::Array(items) => if items@.len() > 0 {
            first_item_assert(items@[0]) + first_item_fields(items@[0], max)
        } else {
            seq![]
        },
        _ => seq![],
    }
}

/// For a JSON object body whose first member has a simple key `k` and an array or object
/// value, the suggestion after the assert on `$` itself is `$.k`, with `IsCollection` when
/// that value has items and `IsEmpty` when it has none.
pub proof fn lemma_first_member_collection(
    headers: Seq<(String, String)>,
    options: BuildOptions,
    members: Vec<(String, JsonValue)>,
)
    requires
        options.max_json_field_asserts > 0,
        members@.len() > 0,
        is_simple_key(members@[0].0@),
        members@[0].1 is Array || members@[0].1 is Object,
    ensures
        ({
            let r = suggested_asserts(headers, options, Some(JsonValue::Object(members)));
            let h = header_part(headers, options).len() as int;
            let v = members@[0].1;
            let has_items = (v is Array && v->Array_0@.len() > 0) || (v is Object && v->Object_0@.len() > 0);
            &&& r.len() >= h + 2
            &&& r[h] == SuggestedAssertV::JsonPath { expression: "$"@, predicate: SuggestedPredicate::IsCollection }
            &&& r[h + 1] == SuggestedAssertV::JsonPath {
                expression: "$."@ + members@[0].0@,
                predicate: if has_items { SuggestedPredicate::IsCollection } else { SuggestedPredicate::IsEmpty },
            }
        }),
{
    reveal_strlit("$");
    reveal_strlit("$.");
    let ms = members@;
    let k = ms[0].0@;
    lemma_predicate_kinds(ms[0].1);
    assert("$"@ + seq!['.'] + k =~= "$."@ + k);
    let h = header_part(headers, options);
    let fa = field_asserts("$"@, ms, options.max_json_field_asserts as nat);
    assert(fa.len() >= 1);
    let b = body_part(options, Some(JsonValue::Object(members)));
    assert(b[0] == SuggestedAssertV::JsonPath { expression: "$"@, predicate: SuggestedPredicate::IsCollection });
    assert(b[1] == fa[0]);
    let r = suggested_asserts(headers, options, Some(JsonValue::Object(members)));
    assert(r[h.len() as int] == b[0]);
    assert(r[h.len() as int + 1] == b[1]);
}

/// The index of the first header named `Content-Type` in any ASCII case, from `i` on.
pub open spec fn content_type_index(headers: Seq<(String, String)>, i: int) -> Option<int>
    decreases headers.len() - i,
{
    if i < 0 || i >= headers.len() {
        None
    } else if eq_ignore_ascii_case(headers[i].0@, "content-type"@) {
        Some(i)
    } else {
        content_type_index(headers, i + 1)
    }
}

/// The part of a header value before its first `;`.
pub open spec fn before_semicolon(s: Seq<char>) -> Seq<char> {
    match find(s, ';') {
        Some(p) => s.take(p),
        None => s,
    }
}

/// The assert that the response's media type is contained in its `Content-Type`.
pub open spec fn content_type_assert(headers: Seq<(String, String)>) -> Option<SuggestedAssertV> {
    match content_type_index(headers, 0) {
        Some(i) => {
            let mime = trim(before_semicolon(headers[i].1@));
            if mime.len() > 0 {
                Some(SuggestedAssertV::HeaderContains { header: "Content-Type"@, value: mime })
            } else {
                None
            }
        },
        None => None,
    }
}

/// The suggested asserts for a response with these headers whose body parsed to `json`.
pub open spec fn header_part(headers: Seq<(String, String)>, options: BuildOptions) -> Seq<SuggestedAssertV> {
    if options.include_content_type_assert {
        match content_type_assert(headers) {
            Some(a) => seq![a],
            None => seq![],
        }
    } else {
        seq![]
    }
}

pub open spec fn body_part(options: BuildOptions, json: Option<JsonValue>) -> Seq<SuggestedAssertV> {
    if options.max_json_field_asserts > 0 {
        match json {
            Some(v) => seq![SuggestedAssertV::JsonPath { expression: "$"@, predicate: SuggestedPredicate::IsCollection }]
                + json_field_asserts(v, options.max_json_field_asserts as nat),
            None => seq![],
        }
    } else {
        seq![]
    }
}

/// The suggested asserts for a response with these headers whose body parsed to `json`.
pub open spec fn suggested_asserts(
    headers: Seq<(String, String)>,
    options: BuildOptions,
    json: Option<JsonValue>,
) -> Seq<SuggestedAssertV> {
    header_part(headers, options) + body_part(options, json)
}

pub(crate) fn eq_ignore_case_lit(s: &[char], lit: &str) -> (r: bool)
    ensures
        r == eq_ignore_ascii_case(s@, lit@),
{
    let w = chars_of(lit);
    if s.len() != w.len() {
        return false;
    }
    let mut i: usize = 0;
    while i < s.len()
        invariant
            i <= s@.len() == w@.len(),
            w@ == lit@,
            forall|j: int| 0 <= j < i ==> ascii_lower(#[trigger] s@[j]) == w@[j],
        decreases s.len() - i,
    {
        let c = s[i];
        let l = if 'A' <= c && c <= 'Z' {
            ((c as u8) + 32) as char
        } else {
            c
        };
        if l != w[i] {
            return false;
        }
        i = i + 1;
    }
    true
}

fn content_type_suggestion(headers: &Vec<(String, String)>) -> (r: Option<SuggestedAssert>)
    ensures
        r.deep_view() == content_type_assert(headers@),
{
    let mut i: usize = 0;
    while i < headers.len()
        invariant
            i <= headers@.len(),
            content_type_index(headers@, 0) == content_type_index(headers@, i as int),
        decreases headers.len() - i,
    {
        let name = chars_of(headers[i].0.as_str());
        if eq_ignore_case_lit(name.as_slice(), "content-type") {
            let value = chars_of(headers[i].1.as_str());
            let before: &[char] = match find_char(value.as_slice(), ';') {
                Some(p) => {
                    proof {
                        lemma_find_from(value@, ';', 0);
                    }
                    let b = &value.as_slice()[0..p];
                    proof {
                        assert(b@ =~= value@.take(p as int));
                    }
                    b
                },
                None => value.as_slice(),
            };
            let mime = trim_chars(before);
            if mime.len() > 0 {
                return Some(
                    SuggestedAssert::HeaderContains {
                        header: string_from_chars(chars_of("Content-Type").as_slice()),
                        value: string_from_chars(mime),
                    },
                );
            } else {
                return None;
            }
        }
        i = i + 1;
    }
    None
}

/// The suggestion for a received response whose body parsed to `json` (`None` where the
/// body is not JSON).
pub fn build_response_spec_from_json(
    snapshot: &ResponseSnapshot,
    options: &BuildOptions,
    json: Option<JsonValue>,
) -> (r: SuggestedResponseSpec)
    ensures
        r.status == snapshot.status,
        r.asserts.deep_view() == suggested_asserts(snapshot.headers@, *options, json),
{
    let mut asserts: Vec<SuggestedAssert> = Vec::new();
    let ghost empty = asserts.deep_view();
    proof {
        assert(empty =~= Seq::<SuggestedAssertV>::empty());
    }
    if options.include_content_type_assert {
        if let Some(a) = content_type_suggestion(&snapshot.headers) {
            asserts.push(a);
            proof {
                assert(asserts.deep_view() =~= seq![a@]);
            }
        }
    }
    let ghost first_part = asserts.deep_view();
    if options.max_json_field_asserts > 0 {
        if let Some(value) = json {
            asserts.push(
                SuggestedAssert::JsonPath {
                    expression: string_from_chars(chars_of("$").as_slice()),
                    predicate: SuggestedPredicate::IsCollection,
                },
            );
            let ghost with_root = asserts.deep_view();
            proof {
                assert(with_root =~= first_part + seq![SuggestedAssertV::JsonPath { expression: "$"@, predicate: SuggestedPredicate::IsCollection }]);
            }
            match &value {
                JsonValue::Object(map) => {
                    let base = chars_of("$");
                    push_field_asserts(base.as_slice(), map, options.max_json_field_asserts, &mut asserts);
                },
                JsonValue::Array(items) => {
                    if items.len() > 0 {
                        let first = &items[0];
                        if let Some(predicate) = predicate_for_value(first) {
                            let a = SuggestedAssert::JsonPath {
                                expression: string_from_chars(chars_of("$[0]").as_slice()),
                                predicate,
                            };
                            let ghost b = asserts.deep_view();
                            asserts.push(a);
                            proof {
                                assert(asserts.deep_view() =~= b.push(a@));
                            }
                        }
                        let ghost mid = asserts.deep_view();
                        if let JsonValue::Object(map) = first {
                            let base = chars_of("$[0]");
                            push_field_asserts(base.as_slice(), map, options.max_json_field_asserts, &mut asserts);
                        }
                    }
                },
                _ => {},
            }
            proof {
                assert(asserts.deep_view() =~= first_part + (seq![SuggestedAssertV::JsonPath { expression: "$"@, predicate: SuggestedPredicate::IsCollection }]
                    + json_field_asserts(value, options.max_json_field_asserts as nat)));
            }
        }
    }
    proof {
        assert(asserts.deep_view() =~= suggested_asserts(snapshot.headers@, *options, json));
    }
    SuggestedResponseSpec { status: snapshot.status, asserts }
}

/// Suggests the expected response for a received one: its status, a `Content-Type` assert,
/// and JSON path asserts on the body's fields when it is JSON.
pub fn build_response_spec(snapshot: &ResponseSnapshot, options: &BuildOptions) -> (r: SuggestedResponseSpec)
    ensures
        r.status == snapshot.status,
        r.asserts.deep_view() == suggested_asserts(
            snapshot.headers@,
            *options,
            if options.max_json_field_asserts > 0 { parsed_json(snapshot.body@) } else { None },
        ),
{
    let json = if options.max_json_field_asserts > 0 {
        parse_json(snapshot.body.as_str())
    } else {
        None
    };
    build_response_spec_from_json(snapshot, options, json)
}

} // verus!
