//! The entries of a Hurl file as the API lists them: where each one starts and ends, and
//! what it requests. The file is parsed with `hurl_core`; the start line of each entry is
//! then found again in the text, so that it points at the line of the request itself.

use vstd::prelude::*;
use crate::models::{EntryInfo, EntryInfoV};
use crate::num::{decimal, push_decimal};
use crate::text::{
    char_views, chars_of, lines, lines_of, push_all, push_str, starts_with, starts_with_chars,
    string_from_chars, to_uppercase, trim, trim_chars, upper_text,
};

verus! {

/// A request of a parsed Hurl file: its method and URL as `hurl_core` writes them, and the
/// lines where `hurl_core` places its start and its end.
pub struct ParsedRequest {
    pub method: String,
    pub url: String,
    pub start_line: usize,
    pub end_line: usize,
}

pub struct ParsedRequestV {
    pub method: Seq<char>,
    pub url: Seq<char>,
    pub start_line: usize,
    pub end_line: usize,
}

impl View for ParsedRequest {
    type V = ParsedRequestV;

    open spec fn view(&self) -> ParsedRequestV {
        ParsedRequestV {
            method: self.method@,
            url: self.url@,
            start_line: self.start_line,
            end_line: self.end_line,
        }
    }
}

/// Where `hurl_core` stopped on a text it refuses, and the kind of error (its `Debug` text).
pub struct HurlSyntaxError {
    pub line: usize,
    pub column: usize,
    pub kind: String,
}

pub struct HurlSyntaxErrorV {
    pub line: usize,
    pub column: usize,
    pub kind: Seq<char>,
}

impl View for HurlSyntaxError {
    type V = HurlSyntaxErrorV;

    open spec fn view(&self) -> HurlSyntaxErrorV {
        HurlSyntaxErrorV { line: self.line, column: self.column, kind: self.kind@ }
    }
}

/// What parsing a Hurl text gives: its requests in order, or the error that stopped it.
pub enum HurlParse {
    Requests(Vec<ParsedRequest>),
    Failure(HurlSyntaxError),
}

pub enum HurlParseV {
    Requests(Seq<ParsedRequestV>),
    Failure(HurlSyntaxErrorV),
}

impl View for HurlParse {
    type V = HurlParseV;

    open spec fn view(&self) -> HurlParseV {
        match self {
            HurlParse::Requests(rs) => HurlParseV::Requests(rs@.map_values(|r: ParsedRequest| r@)),
            HurlParse::Failure(e) => HurlParseV::Failure(e@),
        }
    }
}

/// What `hurl_core::parser::parse_hurl_file` gives for a text, as plain values.
pub uninterp spec fn parsed_hurl(content: Seq<char>) -> HurlParseV;

/// `hurl_core::parser::parse_hurl_file` on `content`: each entry's method (`Method`'s
/// `Display`, its name), URL (`Template`'s `Display`) and the start and end lines of its
/// request, or the position and kind of the error. The result is named by `parsed_hurl`.
#[verifier::external_body]
fn parse_hurl_file(content: &str) -> (r: HurlParse)
    ensures
        r@ == parsed_hurl(content@),
{
    match hurl_core::parser::parse_hurl_file(content) {
        Ok(file) => HurlParse::Requests(file.entries.iter().map(|e| ParsedRequest {
            method: e.request.method.to_string(),
            url: e.request.url.to_string(),
            start_line: e.request.source_info.start.line,
            end_line: e.request.source_info.end.line,
        }).collect()),
        Err(e) => HurlParse::Failure(
            HurlSyntaxError { line: e.pos.line, column: e.pos.column, kind: format!("{:?}", e.inner) },
        ),
    }
}

/// `p` occurs in `s`.
pub open spec fn contains(s: Seq<char>, p: Seq<char>) -> bool {
    exists|i: int| 0 <= i && i + p.len() <= s.len() && #[trigger] s.subrange(i, i + p.len()) == p
}

/// `s[i..]` starts with `p`.
pub open spec fn occurs_at(s: Seq<char>, p: Seq<char>, i: int) -> bool {
    i + p.len() <= s.len() && s.subrange(i, i + p.len()) == p
}

fn occurs_at_exec(s: &[char], p: &[char], i: usize) -> (r: bool)
    requires
        i <= s@.len(),
    ensures
        r == occurs_at(s@, p@, i as int),
{
    if p.len() > s.len() - i {
        return false;
    }
    let mut j: usize = 0;
    while j < p.len()
        invariant
            i + p@.len() <= s@.len(),
            j <= p@.len(),
            forall|k: int| 0 <= k < j ==> s@[i + k] == p@[k],
        decreases p.len() - j,
    {
        let n = s.len();
        assert(i + j < n);
        if s[i + j] != p[j] {
            proof {
                assert(s@.subrange(i as int, i + p@.len())[j as int] != p@[j as int]);
            }
            return false;
        }
        j = j + 1;
    }
    proof {
        assert(s@.subrange(i as int, i + p@.len()) =~= p@);
    }
    true
}

/// Whether `p` occurs in `s`.
fn contains_chars(s: &[char], p: &[char]) -> (r: bool)
    ensures
        r == contains(s@, p@),
{
    if p.len() > s.len() {
        proof {
            assert forall|k: int| 0 <= k && k + p@.len() <= s@.len() implies #[trigger] s@.subrange(
                k,
                k + p@.len(),
            ) != p@ by {}
        }
        return false;
    }
    let last = s.len() - p.len();
    let mut i: usize = 0;
    loop
        invariant
            i <= last,
            last + p@.len() == s@.len(),
            forall|k: int| 0 <= k < i ==> !occurs_at(s@, p@, k),
        decreases last - i,
    {
        if occurs_at_exec(s, p, i) {
            proof {
                assert(occurs_at(s@, p@, i as int));
            }
            return true;
        }
        if i == last {
            proof {
                assert forall|k: int| 0 <= k && k + p@.len() <= s@.len() implies #[trigger] s@.subrange(
                    k,
                    k + p@.len(),
                ) != p@ by {
                    assert(!occurs_at(s@, p@, k));
                }
            }
            return false;
        }
        i = i + 1;
    }
}

/// A line holds the request of an entry: trimmed and upper-cased it starts with the method,
/// and, where a URL is given and is not blank, the trimmed line holds the trimmed URL.
pub open spec fn line_matches(line: Seq<char>, method_upper: Seq<char>, url: Option<Seq<char>>) -> bool {
    &&& starts_with(upper_text(trim(line)), method_upper)
    &&& match url {
        Some(u) => trim(u).len() == 0 || contains(trim(line), trim(u)),
        None => true,
    }
}

fn line_matches_request(line: &[char], method_upper: &[char], url: Option<&[char]>) -> (r: bool)
    ensures
        r == line_matches(line@, method_upper@, match url {
            Some(u) => Some(u@),
            None => None,
        }),
{
    let trimmed = trim_chars(line);
    let trimmed_text = string_from_chars(trimmed);
    let upper = to_uppercase(trimmed_text.as_str());
    let upper_chars = chars_of(upper.as_str());
    if !starts_with_chars(upper_chars.as_slice(), method_upper) {
        return false;
    }
    match url {
        Some(target) => {
            let normalized = trim_chars(target);
            if normalized.len() != 0 {
                return contains_chars(trimmed, normalized);
            }
            true
        },
        None => true,
    }
}

/// The first line in `lo..hi` that holds the request.
pub open spec fn first_match(
    ls: Seq<Seq<char>>,
    method_upper: Seq<char>,
    url: Option<Seq<char>>,
    lo: int,
    hi: int,
) -> Option<int>
    decreases hi - lo,
{
    if lo >= hi {
        None
    } else if line_matches(ls[lo], method_upper, url) {
        Some(lo)
    } else {
        first_match(ls, method_upper, url, lo + 1, hi)
    }
}

pub open spec fn or_else(a: Option<int>, b: Option<int>) -> Option<int> {
    match a {
        Some(i) => Some(i),
        None => b,
    }
}

pub open spec fn max_usize(a: usize, b: usize) -> usize {
    if a >= b { a } else { b }
}

pub open spec fn min_usize(a: usize, b: usize) -> usize {
    if a <= b { a } else { b }
}

/// The line (from 0) where an entry's request is found, its method upper-cased: from the
/// line `hurl_core` gives (or from `search_from`, whichever is later) to the end, first with
/// the URL and then by the method alone; failing that, from `search_from` up to that point,
/// in the same two ways.
pub open spec fn entry_start_line(
    ls: Seq<Seq<char>>,
    method: Seq<char>,
    url: Seq<char>,
    source_line: usize,
    search_from: usize,
) -> Option<int> {
    let method_upper = upper_text(method);
    if ls.len() == 0 {
        None
    } else {
        let preferred = max_usize(source_line.saturating_sub(1), search_from);
        let back = min_usize(preferred, ls.len() as usize);
        or_else(
            first_match(ls, method_upper, Some(url), preferred as int, ls.len() as int),
            or_else(
                first_match(ls, method_upper, None, preferred as int, ls.len() as int),
                or_else(
                    first_match(ls, method_upper, Some(url), search_from as int, back as int),
                    first_match(ls, method_upper, None, search_from as int, back as int),
                ),
            ),
        )
    }
}

fn find_first(
    ls: &Vec<Vec<char>>,
    method_upper: &[char],
    url: Option<&[char]>,
    lo: usize,
    hi: usize,
) -> (r: Option<usize>)
    requires
        hi <= ls@.len(),
    ensures
        match r {
            Some(i) => first_match(char_views(ls@), method_upper@, match url {
                Some(u) => Some(u@),
                None => None,
            }, lo as int, hi as int) == Some(i as int),
            None => first_match(char_views(ls@), method_upper@, match url {
                Some(u) => Some(u@),
                None => None,
            }, lo as int, hi as int) is None,
        },
{
    let ghost u = match url {
        Some(u) => Some(u@),
        None => None::<Seq<char>>,
    };
    let ghost lsv = char_views(ls@);
    let mut i: usize = lo;
    while i < hi
        invariant
            lo <= i || hi <= lo,
            hi <= ls@.len(),
            lsv == char_views(ls@),
            u == (match url {
                Some(u) => Some(u@),
                None => None::<Seq<char>>,
            }),
            lo <= hi ==> lo <= i <= hi,
            first_match(lsv, method_upper@, u, lo as int, hi as int) == first_match(
                lsv,
                method_upper@,
                u,
                i as int,
                hi as int,
            ),
        decreases hi - i,
    {
        if line_matches_request(ls[i].as_slice(), method_upper, url) {
            return Some(i);
        }
        i = i + 1;
    }
    None
}

/// Where an entry's request is found, as the line index from 0.
fn find_entry_start_line(
    ls: &Vec<Vec<char>>,
    method: &[char],
    url: &[char],
    source_line: usize,
    search_from: usize,
) -> (r: Option<usize>)
    ensures
        match r {
            Some(i) => entry_start_line(char_views(ls@), method@, url@, source_line, search_from)
                == Some(i as int),
            None => entry_start_line(char_views(ls@), method@, url@, source_line, search_from) is None,
        },
{
    if ls.len() == 0 {
        return None;
    }
    let method_text = string_from_chars(method);
    let method_upper_text = to_uppercase(method_text.as_str());
    let method_upper = chars_of(method_upper_text.as_str());
    let preferred_a = source_line.saturating_sub(1);
    let preferred = if preferred_a >= search_from { preferred_a } else { search_from };
    let n = ls.len();
    if preferred <= n {
        if let Some(i) = find_first(ls, method_upper.as_slice(), Some(url), preferred, n) {
            return Some(i);
        }
        if let Some(i) = find_first(ls, method_upper.as_slice(), None, preferred, n) {
            return Some(i);
        }
    }
    let back = if preferred <= n { preferred } else { n };
    if search_from <= back {
        if let Some(i) = find_first(ls, method_upper.as_slice(), Some(url), search_from, back) {
            return Some(i);
        }
        find_first(ls, method_upper.as_slice(), None, search_from, back)
    } else {
        None
    }
}

/// The text of a parse error: `line L, col C: KIND`.
pub open spec fn parse_error_text(e: HurlSyntaxErrorV) -> Seq<char> {
    "line "@ + decimal(e.line as nat) + ", col "@ + decimal(e.column as nat) + ": "@ + e.kind
}

/// The entries of the first `n` requests, and where the search for the next one starts.
pub open spec fn entries_upto(ls: Seq<Seq<char>>, rs: Seq<ParsedRequestV>, n: nat) -> (Seq<EntryInfoV>, usize)
    decreases n,
{
    if n == 0 || n > rs.len() {
        (seq![], 0)
    } else {
        let (prev, search_from) = entries_upto(ls, rs, (n - 1) as nat);
        let r = rs[n - 1];
        let actual: usize = match entry_start_line(ls, r.method, r.url, r.start_line, search_from) {
            Some(i) => i as usize,
            None => r.start_line.saturating_sub(1),
        };
        let info = EntryInfoV {
            index: (n - 1) as usize,
            start_line: actual.saturating_add(1) as u32,
            end_line: r.end_line as u32,
            method: upper_text(r.method),
            url: r.url,
        };
        (prev.push(info), actual.saturating_add(1))
    }
}

/// The entries that a parse of `content` lists, or the text of its error.
pub open spec fn hurl_entries(content: Seq<char>, parse: HurlParseV) -> Result<Seq<EntryInfoV>, Seq<char>> {
    match parse {
        HurlParseV::Failure(e) => Err(parse_error_text(e)),
        HurlParseV::Requests(rs) => Ok(entries_upto(lines(content), rs, rs.len()).0),
    }
}

pub open spec fn entries_view(r: Result<Vec<EntryInfo>, String>) -> Result<Seq<EntryInfoV>, Seq<char>> {
    match r {
        Ok(v) => Ok(v.deep_view()),
        Err(e) => Err(e@),
    }
}

fn parse_error_string(e: &HurlSyntaxError) -> (r: String)
    ensures
        r@ == parse_error_text(e@),
{
    let mut out: Vec<char> = Vec::new();
    push_str(&mut out, "line ");
    push_decimal(&mut out, e.line as u64);
    push_str(&mut out, ", col ");
    push_decimal(&mut out, e.column as u64);
    push_str(&mut out, ": ");
    let k = chars_of(e.kind.as_str());
    push_all(&mut out, k.as_slice());
    proof {
        assert(out@ =~= parse_error_text(e@));
    }
    string_from_chars(out.as_slice())
}

/// The entries that `parse`, a parse of `content`, lists: each with its index, the line
/// (from 1) where its request is found in `content`, the end line `hurl_core` gives, its
/// method and its URL. A parse error becomes its text.
pub fn entries_from_parse(content: &str, parse: &HurlParse) -> (r: Result<Vec<EntryInfo>, String>)
    ensures
        entries_view(r) == hurl_entries(content@, parse@),
{
    match parse {
        HurlParse::Failure(e) => Err(parse_error_string(e)),
        HurlParse::Requests(rs) => {
            let ls = lines_of(content);
            let ghost lsv = char_views(ls@);
            let ghost rsv = rs@.map_values(|r: ParsedRequest| r@);
            let mut out: Vec<EntryInfo> = Vec::new();
            let mut search_from: usize = 0;
            let mut i: usize = 0;
            while i < rs.len()
                invariant
                    i <= rs@.len(),
                    lsv == char_views(ls@),
                    lsv == lines(content@),
                    rsv == rs@.map_values(|r: ParsedRequest| r@),
                    (out.deep_view(), search_from) == entries_upto(lsv, rsv, i as nat),
                decreases rs.len() - i,
            {
                let req = &rs[i];
                let method_chars = chars_of(req.method.as_str());
                let url_chars = chars_of(req.url.as_str());
                proof {
                    assert(rsv[i as int] == req@);
                }
                let found = find_entry_start_line(
                    &ls,
                    method_chars.as_slice(),
                    url_chars.as_slice(),
                    req.start_line,
                    search_from,
                );
                let actual = match found {
                    Some(k) => k,
                    None => req.start_line.saturating_sub(1),
                };
                let method = to_uppercase(req.method.as_str());
                let info = EntryInfo {
                    index: i,
                    start_line: actual.saturating_add(1) as u32,
                    end_line: req.end_line as u32,
                    method,
                    url: req.url.clone(),
                };
                out.push(info);
                search_from = actual.saturating_add(1);
                proof {
                    assert(out.deep_view() =~= entries_upto(lsv, rsv, i as nat).0.push(info@));
                }
                i = i + 1;
            }
            Ok(out)
        },
    }
}

/// The entries of a Hurl text: each with its index, the line (from 1) where its request is
/// found, the end line of its request, its method and its URL; or, where `hurl_core` refuses
/// the text, `line L, col C: KIND`.
pub fn parse_hurl_entries(content: &str) -> (r: Result<Vec<EntryInfo>, String>)
    ensures
        entries_view(r) == hurl_entries(content@, parsed_hurl(content@)),
{
    let parse = parse_hurl_file(content);
    entries_from_parse(content, &parse)
}

proof fn lemma_first_match_holds(
    ls: Seq<Seq<char>>,
    method_upper: Seq<char>,
    url: Option<Seq<char>>,
    lo: int,
    hi: int,
)
    ensures
        first_match(ls, method_upper, url, lo, hi) matches Some(i) ==> lo <= i < hi && line_matches(
            ls[i],
            method_upper,
            url,
        ),
    decreases hi - lo,
{
    if lo < hi && !line_matches(ls[lo], method_upper, url) {
        lemma_first_match_holds(ls, method_upper, url, lo + 1, hi);
    }
}

/// Where an entry's request is found, the line is one of the text's lines and, trimmed and
/// upper-cased, it starts with the entry's method upper-cased.
pub proof fn lemma_entry_start_line_holds_method(
    ls: Seq<Seq<char>>,
    method: Seq<char>,
    url: Seq<char>,
    source_line: usize,
    search_from: usize,
)
    ensures
        entry_start_line(ls, method, url, source_line, search_from) matches Some(i) ==> 0 <= i < ls.len()
            && starts_with(upper_text(trim(ls[i])), upper_text(method)),
{
    let method_upper = upper_text(method);
    if ls.len() > 0 {
        let preferred = max_usize(source_line.saturating_sub(1), search_from);
        let back = min_usize(preferred, ls.len() as usize);
        lemma_first_match_holds(ls, method_upper, Some(url), preferred as int, ls.len() as int);
        lemma_first_match_holds(ls, method_upper, None, preferred as int, ls.len() as int);
        lemma_first_match_holds(ls, method_upper, Some(url), search_from as int, back as int);
        lemma_first_match_holds(ls, method_upper, None, search_from as int, back as int);
    }
}

} // verus!
