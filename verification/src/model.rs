//! The data model of a Hurl file: entries, requests, expected responses and their parts.
//! Each type has a view in plain mathematical values, over which the contracts are stated.

use vstd::prelude::*;
use crate::text::{
    upper_text, to_uppercase, chars_of, eq_str, push_all, push_str, string_from_chars, ascii_upper, is_ascii_text,
};
use crate::num::{signed_decimal, push_signed_decimal};

verus! {

#[verifier::external_type_specification]
#[verifier::external_body]
pub struct ExPathBuf(std::path::PathBuf);

/// HTTP methods supported by Hurl.
#[derive(Debug, Clone, Copy, PartialEq, Eq, Structural)]
pub enum Method {
    Get,
    Post,
    Put,
    Delete,
    Patch,
    Options,
    Head,
}

/// The name of a method as Hurl writes it.
pub open spec fn method_name(m: Method) -> Seq<char> {
    match m {
        Method::Get => seq!['G', 'E', 'T'],
        Method::Post => seq!['P', 'O', 'S', 'T'],
        Method::Put => seq!['P', 'U', 'T'],
        Method::Delete => seq!['D', 'E', 'L', 'E', 'T', 'E'],
        Method::Patch => seq!['P', 'A', 'T', 'C', 'H'],
        Method::Options => seq!['O', 'P', 'T', 'I', 'O', 'N', 'S'],
        Method::Head => seq!['H', 'E', 'A', 'D'],
    }
}

/// The method whose name is `s`, if any.
pub open spec fn method_named(s: Seq<char>) -> Option<Method> {
    if s == method_name(Method::Get) {
        Some(Method::Get)
    } else if s == method_name(Method::Post) {
        Some(Method::Post)
    } else if s == method_name(Method::Put) {
        Some(Method::Put)
    } else if s == method_name(Method::Delete) {
        Some(Method::Delete)
    } else if s == method_name(Method::Patch) {
        Some(Method::Patch)
    } else if s == method_name(Method::Options) {
        Some(Method::Options)
    } else if s == method_name(Method::Head) {
        Some(Method::Head)
    } else {
        None
    }
}

pub open spec fn all_methods() -> Seq<Method> {
    seq![
        Method::Get,
        Method::Post,
        Method::Put,
        Method::Delete,
        Method::Patch,
        Method::Options,
        Method::Head,
    ]
}

/// The name of a method is made of upper-case ASCII letters, and read back, upper-cased
/// or not, it names that method: `Method::from_str` gives back every method from its name.
pub proof fn lemma_method_name(m: Method)
    ensures
        method_name(m).len() > 0,
        forall|j: int| 0 <= j < method_name(m).len() ==> 'A' <= #[trigger] method_name(m)[j] && method_name(m)[j] <= 'Z',
        method_named(method_name(m)) == Some(m),
        upper_text(method_name(m)) == method_name(m),
{
    let n = method_name(m);
    assert(is_ascii_text(n));
    assert(n.map_values(|c: char| ascii_upper(c)) =~= n);
}

impl Method {
    /// The method whose name is `s` after upper-casing, if any.
    pub fn from_str(s: &str) -> (r: Option<Method>)
        ensures
            r == method_named(upper_text(s@)),
    {
        let u = to_uppercase(s);
        let c = chars_of(u.as_str());
        let names = Method::all();
        let mut i: usize = 0;
        while i < names.len()
            invariant
                names@ == all_methods(),
                c@ == upper_text(s@),
                i <= 7,
                forall|j: int| 0 <= j < i ==> c@ != method_name(#[trigger] all_methods()[j]),
            decreases names.len() - i,
        {
            let m = names[i];
            if eq_str(c.as_slice(), m.as_str()) {
                return Some(m);
            }
            i = i + 1;
        }
        proof {
            assert(c@ != method_name(all_methods()[0]));
            assert(c@ != method_name(all_methods()[1]));
            assert(c@ != method_name(all_methods()[2]));
            assert(c@ != method_name(all_methods()[3]));
            assert(c@ != method_name(all_methods()[4]));
            assert(c@ != method_name(all_methods()[5]));
            assert(c@ != method_name(all_methods()[6]));
        }
        None
    }

    /// Every method, in the order Hurl lists them.
    pub fn all() -> (r: Vec<Method>)
        ensures
            r@ == all_methods(),
    {
        let r = vec![
            Method::Get,
            Method::Post,
            Method::Put,
            Method::Delete,
            Method::Patch,
            Method::Options,
            Method::Head,
        ];
        proof {
            assert(r@ =~= all_methods());
        }
        r
    }

    /// The name of the method, as `Display` writes it.
    pub fn as_str(&self) -> (r: &'static str)
        ensures
            r@ == method_name(*self),
    {
        proof {
            reveal_strlit("GET");
            reveal_strlit("POST");
            reveal_strlit("PUT");
            reveal_strlit("DELETE");
            reveal_strlit("PATCH");
            reveal_strlit("OPTIONS");
            reveal_strlit("HEAD");
        }
        match self {
            Method::Get => "GET",
            Method::Post => "POST",
            Method::Put => "PUT",
            Method::Delete => "DELETE",
            Method::Patch => "PATCH",
            Method::Options => "OPTIONS",
            Method::Head => "HEAD",
        }
    }
}

impl Default for Method {
    fn default() -> (r: Method)
        ensures
            r == Method::Get,
    {
        Method::Get
    }
}

/// A key-value pair used for headers, query params, form data, cookies.
#[derive(Debug, Clone, PartialEq)]
pub struct KeyValue {
    pub key: String,
    pub value: String,
    pub enabled: bool,
}

pub struct KeyValueV {
    pub key: Seq<char>,
    pub value: Seq<char>,
    pub enabled: bool,
}

impl View for KeyValue {
    type V = KeyValueV;

    open spec fn view(&self) -> KeyValueV {
        KeyValueV { key: self.key@, value: self.value@, enabled: self.enabled }
    }
}

impl DeepView for KeyValue {
    type V = KeyValueV;

    open spec fn deep_view(&self) -> KeyValueV {
        self@
    }
}

impl KeyValue {
    /// An enabled pair of `key` and `value`.
    pub fn new(key: &str, value: &str) -> (r: KeyValue)
        ensures
            r@ == (KeyValueV { key: key@, value: value@, enabled: true }),
    {
        KeyValue { key: key.to_owned(), value: value.to_owned(), enabled: true }
    }
}

/// Body content types.
#[derive(Debug, Clone, PartialEq)]
pub enum Body {
    Text(String),
    Json(String),
    Xml(String),
    File(String),
    Base64(String),
}

pub enum BodyV {
    Text(Seq<char>),
    Json(Seq<char>),
    Xml(Seq<char>),
    File(Seq<char>),
    Base64(Seq<char>),
}

impl View for Body {
    type V = BodyV;

    open spec fn view(&self) -> BodyV {
        match self {
            Body::Text(s) => BodyV::Text(s@),
            Body::Json(s) => BodyV::Json(s@),
            Body::Xml(s) => BodyV::Xml(s@),
            Body::File(s) => BodyV::File(s@),
            Body::Base64(s) => BodyV::Base64(s@),
        }
    }
}

impl DeepView for Body {
    type V = BodyV;

    open spec fn deep_view(&self) -> BodyV {
        self@
    }
}

/// A complete Hurl file with one or more entries.
#[derive(Debug, Clone, PartialEq)]
pub struct HurlFile {
    pub path: Option<std::path::PathBuf>,
    pub entries: Vec<Entry>,
}

pub struct HurlFileV {
    pub path: Option<std::path::PathBuf>,
    pub entries: Seq<EntryV>,
}

impl DeepView for HurlFile {
    type V = HurlFileV;

    open spec fn deep_view(&self) -> HurlFileV {
        self@
    }
}

impl View for HurlFile {
    type V = HurlFileV;

    open spec fn view(&self) -> HurlFileV {
        HurlFileV { path: self.path, entries: self.entries.deep_view() }
    }
}

/// A single request-response pair in a Hurl file.
#[derive(Debug, Clone, PartialEq)]
pub struct Entry {
    pub comment: Option<String>,
    pub request: Request,
    pub response_spec: Option<ResponseSpec>,
}

pub struct EntryV {
    pub comment: Option<Seq<char>>,
    pub request: RequestV,
    pub response_spec: Option<ResponseSpecV>,
}

impl View for Entry {
    type V = EntryV;

    open spec fn view(&self) -> EntryV {
        EntryV {
            comment: self.comment.deep_view(),
            request: self.request@,
            response_spec: self.response_spec.deep_view(),
        }
    }
}

impl DeepView for Entry {
    type V = EntryV;

    open spec fn deep_view(&self) -> EntryV {
        self@
    }
}

/// The request specification.
#[derive(Debug, Clone, PartialEq)]
pub struct Request {
    pub method: Method,
    pub url: String,
    pub headers: Vec<KeyValue>,
    pub query_params: Vec<KeyValue>,
    pub form_params: Vec<KeyValue>,
    pub cookies: Vec<KeyValue>,
    pub body: Option<Body>,
    pub options: Vec<KeyValue>,
}

pub struct RequestV {
    pub method: Method,
    pub url: Seq<char>,
    pub headers: Seq<KeyValueV>,
    pub query_params: Seq<KeyValueV>,
    pub form_params: Seq<KeyValueV>,
    pub cookies: Seq<KeyValueV>,
    pub body: Option<BodyV>,
    pub options: Seq<KeyValueV>,
}

impl DeepView for Request {
    type V = RequestV;

    open spec fn deep_view(&self) -> RequestV {
        self@
    }
}

impl View for Request {
    type V = RequestV;

    open spec fn view(&self) -> RequestV {
        RequestV {
            method: self.method,
            url: self.url@,
            headers: self.headers.deep_view(),
            query_params: self.query_params.deep_view(),
            form_params: self.form_params.deep_view(),
            cookies: self.cookies.deep_view(),
            body: self.body.deep_view(),
            options: self.options.deep_view(),
        }
    }
}

/// The request that `Request::default` gives: a `GET` with an empty URL and nothing else.
pub open spec fn empty_request() -> RequestV {
    RequestV {
        method: Method::Get,
        url: seq![],
        headers: seq![],
        query_params: seq![],
        form_params: seq![],
        cookies: seq![],
        body: None,
        options: seq![],
    }
}

impl Default for Request {
    fn default() -> (r: Request)
        ensures
            r@ == empty_request(),
    {
        let r = Request {
            method: Method::Get,
            url: String::new(),
            headers: Vec::new(),
            query_params: Vec::new(),
            form_params: Vec::new(),
            cookies: Vec::new(),
            body: None,
            options: Vec::new(),
        };
        proof {
            assert(r.headers.deep_view() =~= Seq::<KeyValueV>::empty());
            assert(r.query_params.deep_view() =~= Seq::<KeyValueV>::empty());
            assert(r.form_params.deep_view() =~= Seq::<KeyValueV>::empty());
            assert(r.cookies.deep_view() =~= Seq::<KeyValueV>::empty());
            assert(r.options.deep_view() =~= Seq::<KeyValueV>::empty());
        }
        r
    }
}

impl Default for Entry {
    fn default() -> (r: Entry)
        ensures
            r@ == (EntryV { comment: None, request: empty_request(), response_spec: None }),
    {
        Entry { comment: None, request: Request::default(), response_spec: None }
    }
}

impl Default for HurlFile {
    fn default() -> (r: HurlFile)
        ensures
            r.path is None,
            r@.entries == seq![EntryV { comment: None, request: empty_request(), response_spec: None }],
    {
        let r = HurlFile { path: None, entries: vec![Entry::default()] };
        proof {
            assert(r@.entries =~= seq![EntryV { comment: None, request: empty_request(), response_spec: None }]);
        }
        r
    }
}

/// Expected response specification (assertions).
#[derive(Debug, Clone, PartialEq)]
pub struct ResponseSpec {
    pub status: Option<u16>,
    pub headers: Vec<KeyValue>,
    pub captures: Vec<Capture>,
    pub asserts: Vec<Assert>,
}

pub struct ResponseSpecV {
    pub status: Option<u16>,
    pub headers: Seq<KeyValueV>,
    pub captures: Seq<CaptureV>,
    pub asserts: Seq<AssertV>,
}

impl View for ResponseSpec {
    type V = ResponseSpecV;

    open spec fn view(&self) -> ResponseSpecV {
        ResponseSpecV {
            status: self.status,
            headers: self.headers.deep_view(),
            captures: self.captures.deep_view(),
            asserts: self.asserts.deep_view(),
        }
    }
}

impl DeepView for ResponseSpec {
    type V = ResponseSpecV;

    open spec fn deep_view(&self) -> ResponseSpecV {
        self@
    }
}

/// A capture definition: extract a value from the response.
#[derive(Debug, Clone, PartialEq)]
pub struct Capture {
    pub name: String,
    pub query: Query,
}

pub struct CaptureV {
    pub name: Seq<char>,
    pub query: QueryV,
}

impl View for Capture {
    type V = CaptureV;

    open spec fn view(&self) -> CaptureV {
        CaptureV { name: self.name@, query: self.query@ }
    }
}

impl DeepView for Capture {
    type V = CaptureV;

    open spec fn deep_view(&self) -> CaptureV {
        self@
    }
}

/// An assertion: query + predicate.
#[derive(Debug, Clone, PartialEq)]
pub struct Assert {
    pub query: Query,
    pub predicate: Predicate,
}

pub struct AssertV {
    pub query: QueryV,
    pub predicate: PredicateV,
}

impl View for Assert {
    type V = AssertV;

    open spec fn view(&self) -> AssertV {
        AssertV { query: self.query@, predicate: self.predicate@ }
    }
}

impl DeepView for Assert {
    type V = AssertV;

    open spec fn deep_view(&self) -> AssertV {
        self@
    }
}

/// Query types for captures and assertions.
#[derive(Debug, Clone, PartialEq)]
pub enum Query {
    Status,
    Url,
    Header(String),
    Cookie(String),
    Body,
    XPath(String),
    JsonPath(String),
    Regex(String),
    Variable(String),
    Duration,
    Bytes,
    Sha256,
    Md5,
    Certificate(String),
    Ip,
}

pub enum QueryV {
    Status,
    Url,
    Header(Seq<char>),
    Cookie(Seq<char>),
    Body,
    XPath(Seq<char>),
    JsonPath(Seq<char>),
    Regex(Seq<char>),
    Variable(Seq<char>),
    Duration,
    Bytes,
    Sha256,
    Md5,
    Certificate(Seq<char>),
    Ip,
}

impl DeepView for Query {
    type V = QueryV;

    open spec fn deep_view(&self) -> QueryV {
        self@
    }
}

impl View for Query {
    type V = QueryV;

    open spec fn view(&self) -> QueryV {
        match self {
            Query::Status => QueryV::Status,
            Query::Url => QueryV::Url,
            Query::Header(s) => QueryV::Header(s@),
            Query::Cookie(s) => QueryV::Cookie(s@),
            Query::Body => QueryV::Body,
            Query::XPath(s) => QueryV::XPath(s@),
            Query::JsonPath(s) => QueryV::JsonPath(s@),
            Query::Regex(s) => QueryV::Regex(s@),
            Query::Variable(s) => QueryV::Variable(s@),
            Query::Duration => QueryV::Duration,
            Query::Bytes => QueryV::Bytes,
            Query::Sha256 => QueryV::Sha256,
            Query::Md5 => QueryV::Md5,
            Query::Certificate(s) => QueryV::Certificate(s@),
            Query::Ip => QueryV::Ip,
        }
    }
}

/// Predicate types for assertions.
#[derive(Debug, Clone, PartialEq)]
pub enum Predicate {
    Equal(PredicateValue),
    NotEqual(PredicateValue),
    GreaterThan(PredicateValue),
    GreaterThanOrEqual(PredicateValue),
    LessThan(PredicateValue),
    LessThanOrEqual(PredicateValue),
    Contains(PredicateValue),
    StartsWith(PredicateValue),
    EndsWith(PredicateValue),
    Matches(String),
    Exists,
    NotExists,
    Includes(PredicateValue),
    IsInteger,
    IsFloat,
    IsBoolean,
    IsString,
    IsCollection,
    IsEmpty,
}

pub enum PredicateV {
    Equal(PredicateValueV),
    NotEqual(PredicateValueV),
    GreaterThan(PredicateValueV),
    GreaterThanOrEqual(PredicateValueV),
    LessThan(PredicateValueV),
    LessThanOrEqual(PredicateValueV),
    Contains(PredicateValueV),
    StartsWith(PredicateValueV),
    EndsWith(PredicateValueV),
    Matches(Seq<char>),
    Exists,
    NotExists,
    Includes(PredicateValueV),
    IsInteger,
    IsFloat,
    IsBoolean,
    IsString,
    IsCollection,
    IsEmpty,
}

impl DeepView for Predicate {
    type V = PredicateV;

    open spec fn deep_view(&self) -> PredicateV {
        self@
    }
}

impl View for Predicate {
    type V = PredicateV;

    open spec fn view(&self) -> PredicateV {
        match self {
            Predicate::Equal(v) => PredicateV::Equal(v@),
            Predicate::NotEqual(v) => PredicateV::NotEqual(v@),
            Predicate::GreaterThan(v) => PredicateV::GreaterThan(v@),
            Predicate::GreaterThanOrEqual(v) => PredicateV::GreaterThanOrEqual(v@),
            Predicate::LessThan(v) => PredicateV::LessThan(v@),
            Predicate::LessThanOrEqual(v) => PredicateV::LessThanOrEqual(v@),
            Predicate::Contains(v) => PredicateV::Contains(v@),
            Predicate::StartsWith(v) => PredicateV::StartsWith(v@),
            Predicate::EndsWith(v) => PredicateV::EndsWith(v@),
            Predicate::Matches(s) => PredicateV::Matches(s@),
            Predicate::Exists => PredicateV::Exists,
            Predicate::NotExists => PredicateV::NotExists,
            Predicate::Includes(v) => PredicateV::Includes(v@),
            Predicate::IsInteger => PredicateV::IsInteger,
            Predicate::IsFloat => PredicateV::IsFloat,
            Predicate::IsBoolean => PredicateV::IsBoolean,
            Predicate::IsString => PredicateV::IsString,
            Predicate::IsCollection => PredicateV::IsCollection,
            Predicate::IsEmpty => PredicateV::IsEmpty,
        }
    }
}

/// Values used in predicates. A float is held as the literal that was written.
#[derive(Debug, Clone, PartialEq)]
pub enum PredicateValue {
    String(String),
    Integer(i64),
    Float(String),
    Bool(bool),
    Null,
}

pub enum PredicateValueV {
    String(Seq<char>),
    Integer(i64),
    Float(Seq<char>),
    Bool(bool),
    Null,
}

impl DeepView for PredicateValue {
    type V = PredicateValueV;

    open spec fn deep_view(&self) -> PredicateValueV {
        self@
    }
}

impl View for PredicateValue {
    type V = PredicateValueV;

    open spec fn view(&self) -> PredicateValueV {
        match self {
            PredicateValue::String(s) => PredicateValueV::String(s@),
            PredicateValue::Integer(i) => PredicateValueV::Integer(*i),
            PredicateValue::Float(s) => PredicateValueV::Float(s@),
            PredicateValue::Bool(b) => PredicateValueV::Bool(*b),
            PredicateValue::Null => PredicateValueV::Null,
        }
    }
}

/// How `Display` writes a value: a string in double quotes, numbers and booleans as
/// written, `null`.
pub open spec fn value_text(v: PredicateValueV) -> Seq<char> {
    match v {
        PredicateValueV::String(s) => seq!['"'] + s + seq!['"'],
        PredicateValueV::Integer(i) => signed_decimal(i as int),
        PredicateValueV::Float(t) => t,
        PredicateValueV::Bool(b) => if b {
            seq!['t', 'r', 'u', 'e']
        } else {
            seq!['f', 'a', 'l', 's', 'e']
        },
        PredicateValueV::Null => seq!['n', 'u', 'l', 'l'],
    }
}

impl PredicateValue {
    /// Appends the text of the value to `out`.
    pub fn write_to(&self, out: &mut Vec<char>)
        ensures
            final(out)@ == old(out)@ + value_text(self@),
    {
        proof {
            reveal_strlit("true");
            reveal_strlit("false");
            reveal_strlit("null");
        }
        match self {
            PredicateValue::String(s) => {
                out.push('"');
                let c = chars_of(s.as_str());
                push_all(out, c.as_slice());
                out.push('"');
                proof {
                    assert(final(out)@ =~= old(out)@ + (seq!['"'] + s@ + seq!['"']));
                }
            },
            PredicateValue::Integer(i) => push_signed_decimal(out, *i),
            PredicateValue::Float(t) => {
                let c = chars_of(t.as_str());
                push_all(out, c.as_slice());
            },
            PredicateValue::Bool(b) => {
                if *b {
                    push_str(out, "true");
                } else {
                    push_str(out, "false");
                }
            },
            PredicateValue::Null => push_str(out, "null"),
        }
    }

    /// The text of the value, as `Display` writes it.
    pub fn display(&self) -> (r: String)
        ensures
            r@ == value_text(self@),
    {
        let mut out: Vec<char> = Vec::new();
        self.write_to(&mut out);
        proof {
            assert(out@ =~= value_text(self@));
        }
        string_from_chars(out.as_slice())
    }
}

} // verus!
