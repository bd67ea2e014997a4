//! The desktop client's editing state as plain values: the rows of the pair editors, the
//! request builder, the response viewer and the client itself, with the Hurl file that
//! they make up. The widgets that show them stay with the window toolkit; what is held and
//! computed here is what the client reads from them.

use vstd::prelude::*;
use crate::builder::{
    build_response_spec, suggested_asserts, BuildOptions, ResponseSnapshot, SuggestedAssert, SuggestedAssertV,
    SuggestedPredicate,
};
use crate::json::parsed_json;
use crate::model::{
    method_name, Assert, AssertV, Body, BodyV, Entry, EntryV, HurlFile, HurlFileV, KeyValue, KeyValueV, Method,
    Predicate, PredicateV, PredicateValue, PredicateValueV, Query, QueryV, Request, RequestV, ResponseSpec,
    ResponseSpecV,
};
use crate::parser::{parse, parse_spec};
use crate::serializer::{serialize, serialize_spec};
use crate::text::{chars_of, push_all, push_str, string_from_chars};

verus! {

/// A row of a pair editor: the text in its key and value fields, and its check box.
pub struct KeyValueRow {
    pub key: String,
    pub value: String,
    pub enabled: bool,
}

impl View for KeyValueRow {
    type V = KeyValueV;

    open spec fn view(&self) -> KeyValueV {
        KeyValueV { key: self.key@, value: self.value@, enabled: self.enabled }
    }
}

impl DeepView for KeyValueRow {
    type V = KeyValueV;

    open spec fn deep_view(&self) -> KeyValueV {
        self@
    }
}

/// A row counts as a pair when its key or its value holds text.
pub open spec fn is_filled(kv: KeyValueV) -> bool {
    kv.key.len() > 0 || kv.value.len() > 0
}

/// The rows that count as pairs, in order.
pub open spec fn filled_rows(rows: Seq<KeyValueV>) -> Seq<KeyValueV>
    decreases rows.len(),
{
    if rows.len() == 0 {
        seq![]
    } else if is_filled(rows.last()) {
        filled_rows(rows.drop_last()).push(rows.last())
    } else {
        filled_rows(rows.drop_last())
    }
}

/// The row of an empty key and value, checked.
pub open spec fn empty_row() -> KeyValueV {
    KeyValueV { key: seq![], value: seq![], enabled: true }
}

/// An editor of name and value pairs (headers, query parameters, cookies): its rows, top
/// to bottom.
pub struct KeyValueEditor {
    pub rows: Vec<KeyValueRow>,
}

impl KeyValueEditor {
    /// An editor with no rows.
    pub fn new() -> (r: KeyValueEditor)
        ensures
            r.rows.deep_view() == Seq::<KeyValueV>::empty(),
    {
        let r = KeyValueEditor { rows: Vec::new() };
        proof {
            assert(r.rows.deep_view() =~= Seq::<KeyValueV>::empty());
        }
        r
    }

    /// An editor with a row for each pair, in order, each checked as the pair is enabled.
    pub fn from_key_values(kvs: &[KeyValue]) -> (r: KeyValueEditor)
        ensures
            r.rows.deep_view() == kvs.deep_view(),
    {
        let mut rows: Vec<KeyValueRow> = Vec::new();
        let mut i: usize = 0;
        while i < kvs.len()
            invariant
                i <= kvs@.len(),
                rows@.len() == i,
                forall|j: int| 0 <= j < i ==> (#[trigger] rows@[j])@ == kvs@[j]@,
            decreases kvs.len() - i,
        {
            let kv = &kvs[i];
            let row = KeyValueRow { key: kv.key.clone(), value: kv.value.clone(), enabled: kv.enabled };
            rows.push(row);
            i = i + 1;
        }
        proof {
            assert(rows.deep_view() =~= kvs.deep_view());
        }
        KeyValueEditor { rows }
    }

    /// Adds an empty, checked row at the bottom.
    pub fn add_row(&mut self)
        ensures
            final(self).rows.deep_view() == old(self).rows.deep_view().push(empty_row()),
    {
        let row = KeyValueRow { key: String::new(), value: String::new(), enabled: true };
        self.rows.push(row);
        proof {
            assert(self.rows.deep_view() =~= old(self).rows.deep_view().push(empty_row()));
        }
    }

    /// Removes the row at `index`; an index past the last row changes nothing.
    pub fn remove_row(&mut self, index: usize)
        ensures
            final(self).rows.deep_view() == (if index < old(self).rows@.len() {
                old(self).rows.deep_view().remove(index as int)
            } else {
                old(self).rows.deep_view()
            }),
    {
        if index < self.rows.len() {
            self.rows.remove(index);
            proof {
                assert(self.rows.deep_view() =~= old(self).rows.deep_view().remove(index as int));
            }
        }
    }

    /// The pairs of the rows that hold a key or a value, in order.
    pub fn to_key_values(&self) -> (r: Vec<KeyValue>)
        ensures
            r.deep_view() == filled_rows(self.rows.deep_view()),
    {
        let mut out: Vec<KeyValue> = Vec::new();
        let mut i: usize = 0;
        while i < self.rows.len()
            invariant
                i <= self.rows@.len(),
                out.deep_view() == filled_rows(self.rows.deep_view().take(i as int)),
            decreases self.rows.len() - i,
        {
            let row = &self.rows[i];
            let ghost before = self.rows.deep_view().take(i as int);
            let ghost after = self.rows.deep_view().take(i + 1);
            proof {
                assert(after.drop_last() =~= before);
                assert(after.last() == row@);
            }
            if !row.key.as_str().is_empty() || !row.value.as_str().is_empty() {
                let kv = KeyValue { key: row.key.clone(), value: row.value.clone(), enabled: row.enabled };
                out.push(kv);
                proof {
                    assert(out.deep_view() =~= filled_rows(after));
                }
            }
            i = i + 1;
        }
        proof {
            assert(self.rows.deep_view().take(self.rows@.len() as int) =~= self.rows.deep_view());
        }
        out
    }
}

/// The tabs of the request builder.
#[derive(Debug, Clone, Copy, PartialEq, Eq, Structural)]
pub enum RequestTab {
    Headers,
    Body,
    Params,
    Cookies,
}

/// What the body field shows of a body: the text of a JSON, text or XML body, `file:` and
/// the path of a file body, `base64:` and the data of a base64 body; nothing when there is
/// no body.
pub open spec fn body_input_text(b: Option<BodyV>) -> Seq<char> {
    match b {
        None => seq![],
        Some(BodyV::Json(t)) => t,
        Some(BodyV::Text(t)) => t,
        Some(BodyV::Xml(t)) => t,
        Some(BodyV::File(p)) => "file:"@ + p,
        Some(BodyV::Base64(d)) => "base64:"@ + d,
    }
}

/// The body that the text of the body field makes: none when the field is empty, else a
/// JSON body of that text.
pub open spec fn input_body(t: Seq<char>) -> Option<BodyV> {
    if t.len() == 0 {
        None
    } else {
        Some(BodyV::Json(t))
    }
}

fn prefixed_text(prefix: &str, t: &String) -> (r: String)
    ensures
        r@ == prefix@ + t@,
{
    let mut out: Vec<char> = Vec::new();
    push_str(&mut out, prefix);
    let cs = chars_of(t.as_str());
    push_all(&mut out, cs.as_slice());
    string_from_chars(out.as_slice())
}

/// The request builder: the tab shown, the editors of headers, query parameters and
/// cookies, and the text of the body field.
pub struct RequestBuilder {
    pub active_tab: RequestTab,
    pub headers_editor: KeyValueEditor,
    pub params_editor: KeyValueEditor,
    pub cookies_editor: KeyValueEditor,
    pub body_input: String,
}

impl RequestBuilder {
    /// A builder on the headers tab, with empty editors and an empty body field.
    pub fn new() -> (r: RequestBuilder)
        ensures
            r.active_tab == RequestTab::Headers,
            r.headers_editor.rows.deep_view() == Seq::<KeyValueV>::empty(),
            r.params_editor.rows.deep_view() == Seq::<KeyValueV>::empty(),
            r.cookies_editor.rows.deep_view() == Seq::<KeyValueV>::empty(),
            r.body_input@ == Seq::<char>::empty(),
    {
        RequestBuilder {
            active_tab: RequestTab::Headers,
            headers_editor: KeyValueEditor::new(),
            params_editor: KeyValueEditor::new(),
            cookies_editor: KeyValueEditor::new(),
            body_input: String::new(),
        }
    }

    /// A builder showing a request: its headers, query parameters and cookies in the
    /// editors and its body in the body field (see `body_input_text`), on the headers tab.
    pub fn from_request(request: &Request) -> (r: RequestBuilder)
        ensures
            r.active_tab == RequestTab::Headers,
            r.headers_editor.rows.deep_view() == request@.headers,
            r.params_editor.rows.deep_view() == request@.query_params,
            r.cookies_editor.rows.deep_view() == request@.cookies,
            r.body_input@ == body_input_text(request@.body),
    {
        let headers_editor = KeyValueEditor::from_key_values(request.headers.as_slice());
        let params_editor = KeyValueEditor::from_key_values(request.query_params.as_slice());
        let cookies_editor = KeyValueEditor::from_key_values(request.cookies.as_slice());
        let body_input = match &request.body {
            None => String::new(),
            Some(Body::Json(t)) => t.clone(),
            Some(Body::Text(t)) => t.clone(),
            Some(Body::Xml(t)) => t.clone(),
            Some(Body::File(p)) => prefixed_text("file:", p),
            Some(Body::Base64(d)) => prefixed_text("base64:", d),
        };
        RequestBuilder { active_tab: RequestTab::Headers, headers_editor, params_editor, cookies_editor, body_input }
    }

    /// The headers, query parameters and cookies of the rows that hold text, and the body
    /// that the body field makes (see `input_body`).
    pub fn to_request_parts(&self) -> (r: (Vec<KeyValue>, Vec<KeyValue>, Vec<KeyValue>, Option<Body>))
        ensures
            r.0.deep_view() == filled_rows(self.headers_editor.rows.deep_view()),
            r.1.deep_view() == filled_rows(self.params_editor.rows.deep_view()),
            r.2.deep_view() == filled_rows(self.cookies_editor.rows.deep_view()),
            r.3.deep_view() == input_body(self.body_input@),
    {
        let headers = self.headers_editor.to_key_values();
        let params = self.params_editor.to_key_values();
        let cookies = self.cookies_editor.to_key_values();
        let body = if self.body_input.as_str().is_empty() {
            None
        } else {
            Some(Body::Json(self.body_input.clone()))
        };
        (headers, params, cookies, body)
    }
}

/// A received response as the client keeps it: its status, headers, body and size in
/// bytes. (The time it took, a float that the window shows, is not held here.)
pub struct ReceivedResponse {
    pub status: u16,
    pub headers: Vec<KeyValue>,
    pub body: String,
    pub size_bytes: u64,
}

/// The tabs of the response viewer.
#[derive(Debug, Clone, Copy, PartialEq, Eq, Structural)]
pub enum ResponseTab {
    Body,
    Headers,
}

/// The response viewer: the response shown, the tab, the error shown in its place, and
/// whether a request is on its way.
pub struct ResponseViewer {
    pub response: Option<ReceivedResponse>,
    pub active_tab: ResponseTab,
    pub error: Option<String>,
    pub loading: bool,
}

/// The error shown when a run gave no response.
pub open spec fn no_response_error() -> Seq<char> {
    "No response received"@
}

impl ResponseViewer {
    /// A viewer with nothing to show, on the body tab.
    pub fn new() -> (r: ResponseViewer)
        ensures
            r.response is None,
            r.active_tab == ResponseTab::Body,
            r.error is None,
            !r.loading,
    {
        ResponseViewer { response: None, active_tab: ResponseTab::Body, error: None, loading: false }
    }

    /// Shows a response: no error, no longer loading; the tab stays.
    pub fn set_response(&mut self, response: ReceivedResponse)
        ensures
            final(self).response == Some(response),
            final(self).error is None,
            !final(self).loading,
            final(self).active_tab == old(self).active_tab,
    {
        self.response = Some(response);
        self.error = None;
        self.loading = false;
    }

    /// Shows an error in place of a response, no longer loading; the tab stays.
    pub fn set_error(&mut self, error: String)
        ensures
            final(self).error == Some(error),
            final(self).response is None,
            !final(self).loading,
            final(self).active_tab == old(self).active_tab,
    {
        self.error = Some(error);
        self.response = None;
        self.loading = false;
    }

    /// Marks a request as on its way: the error goes, the response shown stays.
    pub fn set_loading(&mut self)
        ensures
            final(self).loading,
            final(self).error is None,
            final(self).response == old(self).response,
            final(self).active_tab == old(self).active_tab,
    {
        self.loading = true;
        self.error = None;
    }

    /// Shows what a run gave back: its first response; the error "No response received"
    /// when it gave none; its error when it failed.
    pub fn show_run_result(&mut self, result: Result<Vec<ReceivedResponse>, String>)
        ensures
            !final(self).loading,
            final(self).active_tab == old(self).active_tab,
            match result {
                Ok(rs) => if rs@.len() > 0 {
                    final(self).response == Some(rs@[0]) && final(self).error is None
                } else {
                    final(self).response is None && final(self).error.is_some()
                        && final(self).error.unwrap()@ == no_response_error()
                },
                Err(e) => final(self).response is None && final(self).error == Some(e),
            },
    {
        match result {
            Ok(rs) => {
                let mut rs = rs;
                if rs.len() > 0 {
                    let first = rs.remove(0);
                    self.set_response(first);
                } else {
                    let e = string_from_chars(chars_of("No response received").as_slice());
                    self.set_error(e);
                }
            },
            Err(e) => {
                self.set_error(e);
            },
        }
    }
}

/// The colour class that the viewer shows a status in: success (2xx), redirection (3xx),
/// client error (4xx), server error (5xx), or other. (The colour itself is a float triple
/// that the window picks for the class.)
#[derive(Debug, Clone, Copy, PartialEq, Eq, Structural)]
pub enum StatusClass {
    Success,
    Redirection,
    ClientError,
    ServerError,
    Other,
}

/// The colour class of a status.
pub open spec fn status_class_of(status: u16) -> StatusClass {
    if 200 <= status <= 299 {
        StatusClass::Success
    } else if 300 <= status <= 399 {
        StatusClass::Redirection
    } else if 400 <= status <= 499 {
        StatusClass::ClientError
    } else if 500 <= status <= 599 {
        StatusClass::ServerError
    } else {
        StatusClass::Other
    }
}

impl ResponseViewer {
    /// The colour class of a status (see `status_class_of`).
    pub fn status_class(status: u16) -> (r: StatusClass)
        ensures
            r == status_class_of(status),
    {
        if 200 <= status && status <= 299 {
            StatusClass::Success
        } else if 300 <= status && status <= 399 {
            StatusClass::Redirection
        } else if 400 <= status && status <= 499 {
            StatusClass::ClientError
        } else if 500 <= status && status <= 599 {
            StatusClass::ServerError
        } else {
            StatusClass::Other
        }
    }
}

/// What `serde_json::to_string_pretty` writes for the JSON value that a text holds, as
/// `serde_json::from_str` reads it; nothing when the text is not JSON.
pub uninterp spec fn pretty_json_text(text: Seq<char>) -> Option<Seq<char>>;

/// `serde_json::from_str::<serde_json::Value>` on `text`, then `serde_json::to_string_pretty`
/// on the value: the result is named by `pretty_json_text`; `None` where either refuses.
/// `from_str` here is the call that `parsed_json` names, and `to_string_pretty` does not
/// refuse a `Value` (its keys are strings and it writes into a `Vec`), so there is a result
/// exactly when the text is JSON.
#[verifier::external_body]
fn pretty_json(text: &str) -> (r: Option<String>)
    ensures
        match r {
            Some(p) => pretty_json_text(text@) == Some(p@),
            None => pretty_json_text(text@) is None,
        },
        r is Some <==> parsed_json(text@) is Some,
{
    match serde_json::from_str::<serde_json::Value>(text) {
        Ok(v) => serde_json::to_string_pretty(&v).ok(),
        Err(_) => None,
    }
}

/// The body as the viewer shows it: pretty-printed when it is JSON, else as it is.
pub fn pretty_print_body(body: &str) -> (r: String)
    ensures
        r@ == match pretty_json_text(body@) {
            Some(p) => p,
            None => body@,
        },
        parsed_json(body@) is None ==> r@ == body@,
        parsed_json(body@) is Some ==> pretty_json_text(body@) is Some,
{
    match pretty_json(body) {
        Some(p) => p,
        None => body.to_owned(),
    }
}

/// The preview of the Hurl text that the client makes.
pub struct HurlPreview {
    pub content: String,
}

impl HurlPreview {
    /// An empty preview.
    pub fn new() -> (r: HurlPreview)
        ensures
            r.content@ == Seq::<char>::empty(),
    {
        HurlPreview { content: String::new() }
    }

    /// Shows `content`.
    pub fn set_content(&mut self, content: String)
        ensures
            final(self).content == content,
    {
        self.content = content;
    }
}

/// The predicate of a suggested JSON path assert.
pub open spec fn predicate_of(p: SuggestedPredicate) -> PredicateV {
    match p {
        SuggestedPredicate::Exists => PredicateV::Exists,
        SuggestedPredicate::IsInteger => PredicateV::IsInteger,
        SuggestedPredicate::IsFloat => PredicateV::IsFloat,
        SuggestedPredicate::IsBoolean => PredicateV::IsBoolean,
        SuggestedPredicate::IsString => PredicateV::IsString,
        SuggestedPredicate::IsCollection => PredicateV::IsCollection,
        SuggestedPredicate::IsEmpty => PredicateV::IsEmpty,
    }
}

/// The assert of a suggested one: a header that contains a value, or a JSON path with its
/// predicate.
pub open spec fn assert_of(a: SuggestedAssertV) -> AssertV {
    match a {
        SuggestedAssertV::HeaderContains { header, value } => AssertV {
            query: QueryV::Header(header),
            predicate: PredicateV::Contains(PredicateValueV::String(value)),
        },
        SuggestedAssertV::JsonPath { expression, predicate } => AssertV {
            query: QueryV::JsonPath(expression),
            predicate: predicate_of(predicate),
        },
    }
}

/// The name and value of each header.
pub open spec fn header_pairs(hs: Seq<KeyValue>) -> Seq<(String, String)> {
    hs.map_values(|kv: KeyValue| (kv.key, kv.value))
}

/// The options the client suggests asserts with: the defaults.
pub open spec fn client_options() -> BuildOptions {
    BuildOptions { include_content_type_assert: true, max_json_field_asserts: 8 }
}

/// The expected response suggested from the response shown: its status, no headers or
/// captures, and the suggested asserts; nothing when no response is shown.
pub open spec fn last_response_spec(v: ResponseViewer) -> Option<ResponseSpecV> {
    match v.response {
        None => None,
        Some(resp) => Some(
            ResponseSpecV {
                status: Some(resp.status),
                headers: seq![],
                captures: seq![],
                asserts: suggested_asserts(header_pairs(resp.headers@), client_options(), parsed_json(resp.body@)).map_values(
                    |a: SuggestedAssertV| assert_of(a),
                ),
            },
        ),
    }
}

fn assert_from_suggested(a: &SuggestedAssert) -> (r: Assert)
    ensures
        r@ == assert_of(a@),
{
    match a {
        SuggestedAssert::HeaderContains { header, value } => Assert {
            query: Query::Header(header.clone()),
            predicate: Predicate::Contains(PredicateValue::String(value.clone())),
        },
        SuggestedAssert::JsonPath { expression, predicate } => Assert {
            query: Query::JsonPath(expression.clone()),
            predicate: match predicate {
                SuggestedPredicate::Exists => Predicate::Exists,
                SuggestedPredicate::IsInteger => Predicate::IsInteger,
                SuggestedPredicate::IsFloat => Predicate::IsFloat,
                SuggestedPredicate::IsBoolean => Predicate::IsBoolean,
                SuggestedPredicate::IsString => Predicate::IsString,
                SuggestedPredicate::IsCollection => Predicate::IsCollection,
                SuggestedPredicate::IsEmpty => Predicate::IsEmpty,
            },
        },
    }
}

fn copy_path(p: &Option<std::path::PathBuf>) -> (r: Option<std::path::PathBuf>)
    ensures
        r == *p,
{
    match p {
        None => None,
        Some(q) => Some(clone_path(q)),
    }
}

/// `PathBuf::clone`: claimed to give back a path equal to `p`, the copy that `Clone`
/// documents.
#[verifier::external_body]
fn clone_path(p: &std::path::PathBuf) -> (r: std::path::PathBuf)
    ensures
        r == *p,
{
    p.clone()
}

/// The client: the method chosen, the text of the URL field, the request builder, the
/// response viewer, the preview, the file being edited, and whether the method list is
/// open.
pub struct AranshiApp {
    pub method: Method,
    pub url_input: String,
    pub request_builder: RequestBuilder,
    pub response_viewer: ResponseViewer,
    pub hurl_preview: HurlPreview,
    pub file_path: Option<std::path::PathBuf>,
    pub show_method_dropdown: bool,
}

/// The request that the client's fields make.
pub open spec fn client_request(app: AranshiApp) -> RequestV {
    RequestV {
        method: app.method,
        url: app.url_input@,
        headers: filled_rows(app.request_builder.headers_editor.rows.deep_view()),
        query_params: filled_rows(app.request_builder.params_editor.rows.deep_view()),
        form_params: seq![],
        cookies: filled_rows(app.request_builder.cookies_editor.rows.deep_view()),
        body: input_body(app.request_builder.body_input@),
        options: seq![],
    }
}

/// The Hurl file that the client's fields make: one entry of the client's request, with
/// the expected response suggested from the response shown when `include_response_status`
/// holds, in the file being edited.
pub open spec fn client_file(app: AranshiApp, include_response_status: bool) -> HurlFileV {
    HurlFileV {
        path: app.file_path,
        entries: seq![
            EntryV {
                comment: None,
                request: client_request(app),
                response_spec: if include_response_status {
                    last_response_spec(app.response_viewer)
                } else {
                    None
                },
            },
        ],
    }
}

/// The colour the client shows a method in, as `0xRRGGBB`.
pub open spec fn method_color_of(m: Method) -> u32 {
    match m {
        Method::Get => 0xa6e3a1,
        Method::Post => 0xf9e2af,
        Method::Put => 0x89b4fa,
        Method::Delete => 0xf38ba8,
        Method::Patch => 0xcba6f7,
        Method::Options => 0x94e2d5,
        Method::Head => 0xf5c2e7,
    }
}

impl AranshiApp {
    /// A client with `GET`, an empty URL, empty editors and preview, nothing shown, and no
    /// file.
    pub fn new() -> (r: AranshiApp)
        ensures
            r.method == Method::Get,
            r.url_input@ == Seq::<char>::empty(),
            r.request_builder.active_tab == RequestTab::Headers,
            r.request_builder.headers_editor.rows.deep_view() == Seq::<KeyValueV>::empty(),
            r.request_builder.params_editor.rows.deep_view() == Seq::<KeyValueV>::empty(),
            r.request_builder.cookies_editor.rows.deep_view() == Seq::<KeyValueV>::empty(),
            r.request_builder.body_input@ == Seq::<char>::empty(),
            r.response_viewer.response is None,
            r.response_viewer.error is None,
            !r.response_viewer.loading,
            r.response_viewer.active_tab == ResponseTab::Body,
            r.hurl_preview.content@ == Seq::<char>::empty(),
            r.file_path is None,
            !r.show_method_dropdown,
    {
        AranshiApp {
            method: Method::Get,
            url_input: String::new(),
            request_builder: RequestBuilder::new(),
            response_viewer: ResponseViewer::new(),
            hurl_preview: HurlPreview::new(),
            file_path: None,
            show_method_dropdown: false,
        }
    }

    /// The expected response suggested from the response shown (see `last_response_spec`).
    pub fn build_response_spec_from_last_response(&self) -> (r: Option<ResponseSpec>)
        ensures
            r.deep_view() == last_response_spec(self.response_viewer),
    {
        match &self.response_viewer.response {
            None => None,
            Some(response) => {
                let mut headers: Vec<(String, String)> = Vec::new();
                let mut i: usize = 0;
                while i < response.headers.len()
                    invariant
                        i <= response.headers@.len(),
                        headers@ == header_pairs(response.headers@).take(i as int),
                    decreases response.headers.len() - i,
                {
                    let h = &response.headers[i];
                    headers.push((h.key.clone(), h.value.clone()));
                    proof {
                        assert(headers@ =~= header_pairs(response.headers@).take(i + 1));
                    }
                    i = i + 1;
                }
                proof {
                    assert(header_pairs(response.headers@).take(response.headers@.len() as int) =~= header_pairs(
                        response.headers@,
                    ));
                }
                let snapshot = ResponseSnapshot { status: response.status, headers, body: response.body.clone() };
                let options = BuildOptions::default();
                let suggested = build_response_spec(&snapshot, &options);
                let mut asserts: Vec<Assert> = Vec::new();
                let mut j: usize = 0;
                while j < suggested.asserts.len()
                    invariant
                        j <= suggested.asserts@.len(),
                        asserts@.len() == j,
                        forall|k: int| 0 <= k < j ==> (#[trigger] asserts@[k])@ == assert_of(suggested.asserts@[k]@),
                    decreases suggested.asserts.len() - j,
                {
                    let a = assert_from_suggested(&suggested.asserts[j]);
                    asserts.push(a);
                    j = j + 1;
                }
                let r = ResponseSpec { status: Some(suggested.status), headers: Vec::new(), captures: Vec::new(), asserts };
                proof {
                    let want = last_response_spec(self.response_viewer)->Some_0;
                    assert(r.asserts.deep_view() =~= want.asserts);
                    assert(r.headers.deep_view() =~= want.headers);
                    assert(r.captures.deep_view() =~= want.captures);
                }
                Some(r)
            },
        }
    }

    /// The Hurl file that the client's fields make (see `client_file`).
    pub fn build_hurl_file(&self, include_response_status: bool) -> (r: HurlFile)
        ensures
            r@ == client_file(*self, include_response_status),
    {
        let url = self.url_input.clone();
        let (headers, params, cookies, body) = self.request_builder.to_request_parts();
        let response_spec = if include_response_status {
            self.build_response_spec_from_last_response()
        } else {
            None
        };
        let request = Request {
            method: self.method,
            url,
            headers,
            query_params: params,
            cookies,
            body,
            form_params: Vec::new(),
            options: Vec::new(),
        };
        proof {
            assert(request.form_params.deep_view() =~= Seq::<KeyValueV>::empty());
            assert(request.options.deep_view() =~= Seq::<KeyValueV>::empty());
            assert(request@ == client_request(*self));
        }
        let entry = Entry { comment: None, request, response_spec };
        let mut entries: Vec<Entry> = Vec::new();
        entries.push(entry);
        let r = HurlFile { path: copy_path(&self.file_path), entries };
        proof {
            let want = client_file(*self, include_response_status);
            assert(r.entries@[0]@ == want.entries[0]);
            assert(r@.entries =~= want.entries);
        }
        r
    }

    /// Shows the text of the Hurl file that the client's fields make, without the expected
    /// response; nothing else changes.
    pub fn update_preview(&mut self)
        ensures
            final(self).hurl_preview.content@ == serialize_spec(client_file(*old(self), false)),
            final(self).method == old(self).method,
            final(self).url_input == old(self).url_input,
            final(self).request_builder == old(self).request_builder,
            final(self).response_viewer == old(self).response_viewer,
            final(self).file_path == old(self).file_path,
            final(self).show_method_dropdown == old(self).show_method_dropdown,
    {
        let file = self.build_hurl_file(false);
        let content = serialize(&file);
        self.hurl_preview.set_content(content);
    }

    /// The text saved for the client's fields: the Hurl file with the expected response.
    pub fn saved_content(&self) -> (r: String)
        ensures
            r@ == serialize_spec(client_file(*self, true)),
    {
        let file = self.build_hurl_file(true);
        serialize(&file)
    }

    /// Shows a file read from `path`: the client edits that file; its first entry, if any,
    /// sets the method, the URL and the request builder; the preview shows the parsed file
    /// written back.
    pub fn open_content(&mut self, path: std::path::PathBuf, content: &str)
        ensures
            final(self).file_path == Some(path),
            final(self).hurl_preview.content@ == serialize_spec(parse_spec(content@)),
            final(self).response_viewer == old(self).response_viewer,
            final(self).show_method_dropdown == old(self).show_method_dropdown,
            ({
                let f = parse_spec(content@);
                if f.entries.len() > 0 {
                    let q = f.entries[0].request;
                    &&& final(self).method == q.method
                    &&& final(self).url_input@ == q.url
                    &&& final(self).request_builder.active_tab == RequestTab::Headers
                    &&& final(self).request_builder.headers_editor.rows.deep_view() == q.headers
                    &&& final(self).request_builder.params_editor.rows.deep_view() == q.query_params
                    &&& final(self).request_builder.cookies_editor.rows.deep_view() == q.cookies
                    &&& final(self).request_builder.body_input@ == body_input_text(q.body)
                } else {
                    &&& final(self).method == old(self).method
                    &&& final(self).url_input == old(self).url_input
                    &&& final(self).request_builder == old(self).request_builder
                }
            }),
    {
        let file = parse(content);
        self.file_path = Some(path);
        if file.entries.len() > 0 {
            let entry = &file.entries[0];
            self.method = entry.request.method;
            self.url_input = entry.request.url.clone();
            self.request_builder = RequestBuilder::from_request(&entry.request);
        }
        let preview = serialize(&file);
        self.hurl_preview.set_content(preview);
    }

    /// The name of the method chosen.
    pub fn method_display(&self) -> (r: &'static str)
        ensures
            r@ == method_name(self.method),
    {
        self.method.as_str()
    }

    /// The colour of the method chosen (see `method_color_of`).
    pub fn method_color(&self) -> (r: u32)
        ensures
            r == method_color_of(self.method),
    {
        match self.method {
            Method::Get => 0xa6e3a1,
            Method::Post => 0xf9e2af,
            Method::Put => 0x89b4fa,
            Method::Delete => 0xf38ba8,
            Method::Patch => 0xcba6f7,
            Method::Options => 0x94e2d5,
            Method::Head => 0xf5c2e7,
        }
    }
}

/// Rows that each hold a key or a value all count as pairs, in order.
pub proof fn lemma_filled_rows_keep(kvs: Seq<KeyValueV>)
    requires
        forall|i: int| 0 <= i < kvs.len() ==> is_filled(#[trigger] kvs[i]),
    ensures
        filled_rows(kvs) == kvs,
    decreases kvs.len(),
{
    if kvs.len() > 0 {
        let d = kvs.drop_last();
        assert forall|i: int| 0 <= i < d.len() implies is_filled(#[trigger] d[i]) by {
            assert(d[i] == kvs[i]);
        }
        lemma_filled_rows_keep(d);
        assert(is_filled(kvs[kvs.len() - 1]));
        assert(d.push(kvs.last()) =~= kvs);
    }
}

/// Showing a request in the builder and taking its parts back (`from_request`, then
/// `to_request_parts`) gives back its headers, query parameters and cookies when each of
/// them holds a key or a value, and its body when it has none or a JSON body that is not
/// empty.
pub proof fn lemma_builder_round_trip(req: RequestV)
    requires
        forall|i: int| 0 <= i < req.headers.len() ==> is_filled(#[trigger] req.headers[i]),
        forall|i: int| 0 <= i < req.query_params.len() ==> is_filled(#[trigger] req.query_params[i]),
        forall|i: int| 0 <= i < req.cookies.len() ==> is_filled(#[trigger] req.cookies[i]),
        match req.body {
            None => true,
            Some(BodyV::Json(t)) => t.len() > 0,
            Some(_) => false,
        },
    ensures
        filled_rows(req.headers) == req.headers,
        filled_rows(req.query_params) == req.query_params,
        filled_rows(req.cookies) == req.cookies,
        input_body(body_input_text(req.body)) == req.body,
{
    lemma_filled_rows_keep(req.headers);
    lemma_filled_rows_keep(req.query_params);
    lemma_filled_rows_keep(req.cookies);
}

} // verus!
