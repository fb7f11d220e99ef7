//! Responses: how they are printed, compared and searched for reflections.
use vstd::prelude::*;

use crate::diff::{diff, diff_outcome, DiffError};
use crate::matching::{
    regex_matches, regex_matches_result, regex_replace_all, regex_replace_all_result,
};
use crate::network::request::{
    clone_headers, header_lines, header_lines_exec, is_sorted_of, Request, RequestDefaults,
};
use crate::network::utils::{has_header, header_value_ci, header_views, Headers};
use crate::text::{
    chars_eq, chars_of, contains, contains_exec, count_matches, count_matches_exec, decimal,
    decimal_exec, ends_with_exec, has_prefix, has_suffix, lowercase, replace, replace_exec,
    sort_pairs, sort_strings, sorted_lex, starts_with_exec, str_eq, string_from_chars,
    to_lowercase, views,
};
use crate::utils::{paint, painted, Color};

verus! {

/// The HTTP version a response came with.
#[derive(Clone, Copy, Debug, PartialEq, Eq, Structural)]
pub enum HttpVersion {
    Http09,
    Http10,
    Http11,
    Http2,
    Http3,
}

/// The class of a status code.
#[derive(Clone, Copy, Debug, PartialEq, Eq, Structural)]
pub enum Status {
    /// 2xx
    Success,
    /// 3xx
    Redirect,
    /// 4xx
    UserFault,
    /// 5xx
    ServerFault,
    Other,
}

/// A response to a request.
#[derive(Debug)]
pub struct Response<'a> {
    /// Milliseconds from sending the request to the response's headers.
    pub time: u128,
    pub code: u16,
    /// Headers, in the order received.
    pub headers: Vec<(String, String)>,
    /// Headers and body.
    pub text: String,
    /// Parameters reflected a different number of times than expected, with that number.
    pub reflected_parameters: Vec<(String, usize)>,
    /// The request sent; `None` for the initial response kept by a runner.
    pub request: Option<Request<'a>>,
    /// `None` when the request failed.
    pub http_version: Option<HttpVersion>,
}

/// How a version is printed.
pub open spec fn version_text(v: Option<HttpVersion>) -> Seq<char> {
    match v {
        Some(HttpVersion::Http09) => "HTTP/0.9"@,
        Some(HttpVersion::Http10) => "HTTP/1.0"@,
        Some(HttpVersion::Http11) => "HTTP/1.1"@,
        Some(HttpVersion::Http2) => "HTTP/2"@,
        Some(HttpVersion::Http3) => "HTTP/3"@,
        None => "HTTP/x"@,
    }
}

/// The class of a status code.
pub open spec fn status_of(code: u16) -> Status {
    if code <= 199 {
        Status::Other
    } else if code <= 299 {
        Status::Success
    } else if code <= 399 {
        Status::Redirect
    } else if code <= 499 {
        Status::UserFault
    } else if code <= 599 {
        Status::ServerFault
    } else {
        Status::Other
    }
}

/// The color a status code is printed in.
pub open spec fn status_color(s: Status) -> Color {
    match s {
        Status::Success => Color::BrightGreen,
        Status::Redirect => Color::BrightBlue,
        Status::UserFault => Color::BrightYellow,
        Status::ServerFault => Color::BrightRed,
        Status::Other => Color::Magenta,
    }
}

/// How a response is printed: status line, then headers and body.
pub open spec fn response_text(v: Option<HttpVersion>, code: u16, text: Seq<char>) -> Seq<char> {
    version_text(v) + " "@ + decimal(code as nat) + " \n"@ + text
}

/// A diff found again, numbered: `diff (n)`.
pub open spec fn numbered(d: Seq<char>, n: nat) -> Seq<char> {
    d + " ("@ + decimal(n) + ")"@
}

/// The first number from `c` on whose numbered diff is not in `ds`, looking no further
/// than one past the length of `ds`.
pub open spec fn first_free_number(ds: Seq<Seq<char>>, d: Seq<char>, c: nat) -> nat
    decreases ds.len() + 2 - c,
{
    if c > ds.len() {
        c
    } else if !ds.contains(numbered(d, c)) {
        c
    } else {
        first_free_number(ds, d, c + 1)
    }
}

/// The new diffs among `found`: a diff already seen before is left out; a diff seen
/// again in this response is added numbered.
pub open spec fn new_diffs(found: Seq<Seq<char>>, old_diffs: Seq<Seq<char>>) -> Seq<Seq<char>>
    decreases found.len(),
{
    if found.len() == 0 {
        Seq::empty()
    } else {
        let ds = new_diffs(found.drop_last(), old_diffs);
        let d = found.last();
        if old_diffs.contains(d) {
            ds
        } else if !ds.contains(d) {
            ds.push(d)
        } else {
            ds.push(numbered(d, first_free_number(ds, d, 1)))
        }
    }
}

/// What `compare` keeps of the diffs it finds: every diff it reports is a found diff that
/// was not known before, as it is or numbered; and every found diff not known before is
/// reported as it is. A known diff is never reported.
pub proof fn lemma_new_diffs(found: Seq<Seq<char>>, old_diffs: Seq<Seq<char>>)
    ensures
        forall|x: Seq<char>|
            #[trigger] new_diffs(found, old_diffs).contains(x) ==> exists|i: int|
                0 <= i < found.len() && !old_diffs.contains(#[trigger] found[i]) && (x == found[i]
                    || exists|n: nat| x == numbered(found[i], n)),
        forall|i: int|
            0 <= i < found.len() && !old_diffs.contains(#[trigger] found[i]) ==> new_diffs(
                found,
                old_diffs,
            ).contains(found[i]),
    decreases found.len(),
{
    if found.len() > 0 {
        let f = found.drop_last();
        lemma_new_diffs(f, old_diffs);
        let ds = new_diffs(f, old_diffs);
        let d = found.last();
        let r = new_diffs(found, old_diffs);
        assert(found[found.len() - 1] == d);
        assert forall|x: Seq<char>| #[trigger] r.contains(x) implies exists|i: int|
            0 <= i < found.len() && !old_diffs.contains(#[trigger] found[i]) && (x == found[i]
                || exists|n: nat| x == numbered(found[i], n)) by {
            if ds.contains(x) {
                let i = choose|i: int|
                    0 <= i < f.len() && !old_diffs.contains(#[trigger] f[i]) && (x == f[i]
                        || exists|n: nat| x == numbered(f[i], n));
                assert(found[i] == f[i]);
            } else {
                let j = choose|j: int| 0 <= j < r.len() && r[j] == x;
                assert(j == ds.len());
                assert(found[found.len() - 1] == d);
                if x != d {
                    let n = first_free_number(ds, d, 1);
                    assert(x == numbered(d, n));
                }
            }
        }
        assert forall|i: int|
            0 <= i < found.len() && !old_diffs.contains(#[trigger] found[i]) implies r.contains(
            found[i],
        ) by {
            if i < found.len() - 1 {
                assert(f[i] == found[i]);
                assert(ds.contains(found[i]));
                let j = choose|j: int| 0 <= j < ds.len() && ds[j] == found[i];
                if !old_diffs.contains(d) {
                    assert(r[j] == ds[j]);
                }
            } else {
                if ds.contains(d) {
                    let j = choose|j: int| 0 <= j < ds.len() && ds[j] == d;
                    assert(r[j] == ds[j]);
                } else {
                    assert(r[ds.len() as int] == d);
                }
            }
        }
    }
}

/// A map from names to counts kept as a list with distinct names; inserting replaces
/// the count of a name already there and adds a new name at the end.
pub open spec fn count_insert(m: Seq<(Seq<char>, nat)>, k: Seq<char>, v: nat) -> Seq<(Seq<char>, nat)> {
    if exists|i: int| 0 <= i < m.len() && (#[trigger] m[i]).0 == k {
        let i = choose|i: int| 0 <= i < m.len() && (#[trigger] m[i]).0 == k;
        m.update(i, (k, v))
    } else {
        m.push((k, v))
    }
}

/// The views of reflected parameters.
pub open spec fn count_views(m: Seq<(String, usize)>) -> Seq<(Seq<char>, nat)> {
    m.map_values(|e: (String, usize)| (e.0@, e.1 as nat))
}

/// The names are distinct.
pub open spec fn distinct_names(m: Seq<(Seq<char>, nat)>) -> bool {
    forall|i: int, j: int| 0 <= i < j < m.len() ==> (#[trigger] m[i]).0 != (#[trigger] m[j]).0
}

/// How often `v` occurs in the lowercased text (what `Response::count` returns).
pub open spec fn reflections(text: Seq<char>, v: Seq<char>) -> nat {
    count_matches(lowercase(text), v)
}

/// The prepared parameters whose reflections are counted: those without a fixed value.
pub open spec fn counted_parameters(
    prepared: Seq<(Seq<char>, Seq<char>)>,
    fixed: Seq<(Seq<char>, Seq<char>)>,
) -> Seq<(Seq<char>, Seq<char>)>
    decreases prepared.len(),
{
    if prepared.len() == 0 {
        Seq::empty()
    } else if has_header(fixed, prepared.last().0) {
        counted_parameters(prepared.drop_last(), fixed)
    } else {
        counted_parameters(prepared.drop_last(), fixed).push(prepared.last())
    }
}

/// The reflected parameters after counting `params`: each parameter reflected a
/// different number of times than `expected` is inserted with its count.
pub open spec fn with_reflections(
    m: Seq<(Seq<char>, nat)>,
    params: Seq<(Seq<char>, Seq<char>)>,
    text: Seq<char>,
    initial_text: Seq<char>,
    expected: nat,
) -> Seq<(Seq<char>, nat)>
    decreases params.len(),
{
    if params.len() == 0 {
        m
    } else {
        let before = with_reflections(m, params.drop_last(), text, initial_text, expected);
        let p = params.last();
        let n = (reflections(text, p.1) - reflections(initial_text, p.1)) as nat;
        if n != expected {
            count_insert(before, p.0, n)
        } else {
            before
        }
    }
}

/// Counting does not underflow: no parameter is reflected less often than in the
/// initial response.
pub open spec fn reflections_ok(
    params: Seq<(Seq<char>, Seq<char>)>,
    text: Seq<char>,
    initial_text: Seq<char>,
) -> bool {
    forall|i: int|
        0 <= i < params.len() ==> reflections(text, (#[trigger] params[i]).1) >= reflections(
            initial_text,
            params[i].1,
        )
}

/// Inserting a count sets the count of that name and leaves every other name's count
/// as it was; the names stay distinct.
pub proof fn lemma_count_insert(m: Seq<(Seq<char>, nat)>, k: Seq<char>, v: nat)
    requires
        distinct_names(m),
    ensures
        distinct_names(count_insert(m, k, v)),
        forall|k2: Seq<char>, c: nat|
            #[trigger] count_insert(m, k, v).contains((k2, c)) <==> (k2 == k && c == v) || (k2 != k
                && m.contains((k2, c))),
{
    let r = count_insert(m, k, v);
    if exists|i: int| 0 <= i < m.len() && (#[trigger] m[i]).0 == k {
        let i = choose|i: int| 0 <= i < m.len() && (#[trigger] m[i]).0 == k;
        assert(r == m.update(i, (k, v)));
        assert forall|a: int, b: int| 0 <= a < b < r.len() implies (#[trigger] r[a]).0 != (
        #[trigger] r[b]).0 by {
            assert(m[a].0 != m[b].0);
        }
        assert forall|k2: Seq<char>, c: nat| #[trigger] r.contains((k2, c)) <==> (k2 == k && c == v)
            || (k2 != k && m.contains((k2, c))) by {
            if r.contains((k2, c)) {
                let j = choose|j: int| 0 <= j < r.len() && r[j] == (k2, c);
                if j != i {
                    assert(m[j] == (k2, c));
                    assert(m[j].0 != m[i].0 || j == i);
                }
            }
            if k2 == k && c == v {
                assert(r[i] == (k2, c));
            }
            if k2 != k && m.contains((k2, c)) {
                let j = choose|j: int| 0 <= j < m.len() && m[j] == (k2, c);
                assert(j != i);
                assert(r[j] == (k2, c));
            }
        }
    } else {
        assert(r == m.push((k, v)));
        assert forall|a: int, b: int| 0 <= a < b < r.len() implies (#[trigger] r[a]).0 != (
        #[trigger] r[b]).0 by {
            if b < m.len() {
                assert(m[a].0 != m[b].0);
            } else {
                assert(r[a] == m[a]);
            }
        }
        assert forall|k2: Seq<char>, c: nat| #[trigger] r.contains((k2, c)) <==> (k2 == k && c == v)
            || (k2 != k && m.contains((k2, c))) by {
            if r.contains((k2, c)) {
                let j = choose|j: int| 0 <= j < r.len() && r[j] == (k2, c);
                if j < m.len() {
                    assert(m[j] == (k2, c));
                }
            }
            if k2 == k && c == v {
                assert(r[m.len() as int] == (k2, c));
            }
            if m.contains((k2, c)) {
                let j = choose|j: int| 0 <= j < m.len() && m[j] == (k2, c);
                assert(r[j] == (k2, c));
                if k2 == k {
                    assert(m[j].0 == k);
                }
            }
        }
    }
}

/// The number of times a parameter is reflected beyond the initial response.
pub open spec fn extra_reflections(p: (Seq<char>, Seq<char>), text: Seq<char>, initial_text: Seq<char>) -> nat {
    (reflections(text, p.1) - reflections(initial_text, p.1)) as nat
}

/// Counting reflections, per name (the parameters having distinct names): a parameter
/// reflected a different number of times than expected is recorded with that number;
/// the counts of other names are left as they were.
pub proof fn lemma_with_reflections_per_key(
    m: Seq<(Seq<char>, nat)>,
    params: Seq<(Seq<char>, Seq<char>)>,
    text: Seq<char>,
    initial_text: Seq<char>,
    expected: nat,
)
    requires
        distinct_names(m),
        forall|i: int, j: int| 0 <= i < j < params.len() ==> (#[trigger] params[i]).0 != (
        #[trigger] params[j]).0,
    ensures
        distinct_names(with_reflections(m, params, text, initial_text, expected)),
        forall|i: int|
            0 <= i < params.len() && extra_reflections(#[trigger] params[i], text, initial_text)
                != expected ==> with_reflections(m, params, text, initial_text, expected).contains(
                (params[i].0, extra_reflections(params[i], text, initial_text)),
            ),
        forall|k: Seq<char>, c: nat|
            (forall|i: int|
                0 <= i < params.len() ==> (#[trigger] params[i]).0 != k || extra_reflections(
                    params[i],
                    text,
                    initial_text,
                ) == expected) ==> (#[trigger] with_reflections(
                m,
                params,
                text,
                initial_text,
                expected,
            ).contains((k, c)) <==> m.contains((k, c))),
    decreases params.len(),
{
    if params.len() > 0 {
        let d = params.drop_last();
        lemma_with_reflections_per_key(m, d, text, initial_text, expected);
        let before = with_reflections(m, d, text, initial_text, expected);
        let p = params.last();
        let n = extra_reflections(p, text, initial_text);
        assert(p == params[params.len() - 1]);
        if n != expected {
            lemma_count_insert(before, p.0, n);
        }
        let r = with_reflections(m, params, text, initial_text, expected);
        assert forall|i: int|
            0 <= i < params.len() && extra_reflections(#[trigger] params[i], text, initial_text)
                != expected implies r.contains(
            (params[i].0, extra_reflections(params[i], text, initial_text)),
        ) by {
            if i < params.len() - 1 {
                assert(d[i] == params[i]);
                assert(params[i].0 != p.0);
            }
        }
        assert forall|k: Seq<char>, c: nat|
            (forall|i: int|
                0 <= i < params.len() ==> (#[trigger] params[i]).0 != k || extra_reflections(
                    params[i],
                    text,
                    initial_text,
                ) == expected) implies (#[trigger] r.contains((k, c)) <==> m.contains((k, c))) by {
            assert forall|i: int| 0 <= i < d.len() implies (#[trigger] d[i]).0 != k
                || extra_reflections(d[i], text, initial_text) == expected by {
                assert(d[i] == params[i]);
            }
        }
    }
}

/// The number of parameters with this count.
pub open spec fn with_count(m: Seq<(Seq<char>, nat)>, c: nat) -> nat
    decreases m.len(),
{
    if m.len() == 0 {
        0
    } else {
        with_count(m.drop_last(), c) + if m.last().1 == c {
            1nat
        } else {
            0nat
        }
    }
}

/// The counts in order of first occurrence.
pub open spec fn distinct_counts(m: Seq<(Seq<char>, nat)>) -> Seq<nat>
    decreases m.len(),
{
    if m.len() == 0 {
        Seq::empty()
    } else if distinct_counts(m.drop_last()).contains(m.last().1) {
        distinct_counts(m.drop_last())
    } else {
        distinct_counts(m.drop_last()).push(m.last().1)
    }
}

/// The name of the first parameter with this count.
pub open spec fn first_with_count(m: Seq<(Seq<char>, nat)>, c: nat) -> Seq<char>
    decreases m.len(),
{
    if m.len() == 0 {
        Seq::empty()
    } else if with_count(m.drop_last(), c) > 0 {
        first_with_count(m.drop_last(), c)
    } else if m.last().1 == c {
        m.last().0
    } else {
        Seq::empty()
    }
}

/// What `proceed_reflected_parameters` decides: no parameter and no recheck when none
/// is reflected; the parameter when one is; when the counts split in two groups and one
/// group has a single parameter, that parameter (the first such group) and a recheck;
/// otherwise a recheck.
pub open spec fn reflected_decision(m: Seq<(Seq<char>, nat)>) -> (Option<Seq<char>>, bool) {
    if m.len() == 0 {
        (None, false)
    } else if m.len() == 1 {
        (Some(m[0].0), false)
    } else {
        let cs = distinct_counts(m);
        if cs.len() == 2 && with_count(m, cs[0]) == 1 {
            (Some(first_with_count(m, cs[0])), true)
        } else if cs.len() == 2 && with_count(m, cs[1]) == 1 {
            (Some(first_with_count(m, cs[1])), true)
        } else {
            (None, true)
        }
    }
}

/// The page is JSON: a content type that mentions json, or text in braces.
pub open spec fn looks_like_json(headers: Seq<(Seq<char>, Seq<char>)>, text: Seq<char>) -> bool {
    (has_header(headers, "content-type"@) && match header_value_ci(headers, "content-type"@) {
        Some(v) => contains(v, "json"@),
        None => false,
    }) || (has_prefix(text, "{"@) && has_suffix(text, "}"@))
}

/// Applies a replacement with a pattern, keeping the text where the pattern does not compile.
pub open spec fn replaced_by_pattern(p: Seq<char>, text: Seq<char>, r: Seq<char>) -> Seq<char> {
    match regex_replace_all_result(p, text, r) {
        Some(t) => t,
        None => text,
    }
}

/// The patterns after which JSON text gets a line break.
pub open spec fn json_brackets_pattern() -> Seq<char> {
    "(?P<bracket>(\\{\"|\"\\}|\\[(\"|\\d)|(\"|\\d)\\]))"@
}

pub open spec fn json_comma_after_digit_pattern() -> Seq<char> {
    "(?P<first>\"[\\w\\.-]*\"):(?P<second>\\d+),"@
}

pub open spec fn json_comma_after_bool_pattern() -> Seq<char> {
    "(?P<first>\"[\\w\\.-]*\"):(?P<second>(false|null|true)),"@
}

/// The text with line breaks added to make line diffs finer: in JSON after quoted
/// values, brackets and values before commas; otherwise after every `>`.
pub open spec fn beautified(headers: Seq<(Seq<char>, Seq<char>)>, text: Seq<char>) -> Seq<char> {
    if looks_like_json(headers, text) {
        let b = replace(replace(text, "\\\""@, "'"@), "\","@, "\",\n"@);
        let b = replaced_by_pattern(json_brackets_pattern(), b, "${bracket}\n"@);
        let b = replaced_by_pattern(json_comma_after_digit_pattern(), b, "$first:$second,\n"@);
        replaced_by_pattern(json_comma_after_bool_pattern(), b, "$first:$second,\n"@)
    } else {
        replace(text, ">"@, ">\n"@)
    }
}

impl<'a> Request<'a> {
    /// The response made up when a request fails: code 0 and no text, for the
    /// request prepared without an additional parameter.
    pub fn empty_response(self) -> (r: Response<'a>)
        ensures
            r.time == 0,
            r.code == 0,
            r.headers@.len() == 0,
            r.text@.len() == 0,
            r.reflected_parameters@.len() == 0,
            r.http_version is None,
            r.request matches Some(req) && (if self.prepared {
                req == self
            } else {
                req.prepared_by(self, None)
            }),
    {
        let mut req = self;
        req.prepare(None);
        Response {
            time: 0,
            code: 0,
            headers: Vec::new(),
            text: String::new(),
            reflected_parameters: Vec::new(),
            request: Some(req),
            http_version: None,
        }
    }
}

impl<'a> Response<'a> {
    /// How often `string` occurs in the lowercased text.
    pub fn count(&self, string: &str) -> (r: usize)
        ensures
            string@.len() > 0 || lowercase(self.text@).len() < usize::MAX ==> r == reflections(
                self.text@,
                string@,
            ),
    {
        let lower = to_lowercase(self.text.as_str());
        count_matches_exec(&chars_of(lower.as_str()), &chars_of(string))
    }

    /// The response as text: status line, headers and body.
    pub fn print(&self) -> (r: String)
        ensures
            r@ == response_text(self.http_version, self.code, self.text@),
    {
        let mut out = String::from_str(
            match self.http_version {
                Some(HttpVersion::Http09) => "HTTP/0.9",
                Some(HttpVersion::Http10) => "HTTP/1.0",
                Some(HttpVersion::Http11) => "HTTP/1.1",
                Some(HttpVersion::Http2) => "HTTP/2",
                Some(HttpVersion::Http3) => "HTTP/3",
                None => "HTTP/x",
            },
        );
        out.append(" ");
        out.append(string_from_chars(&decimal_exec(self.code as u128)).as_str());
        out.append(" \n");
        out.append(self.text.as_str());
        out
    }

    /// Whether the code differs from the initial response's, and the diffs of this
    /// response's text against the initial one that are not among `old_diffs`, sorted.
    pub fn compare(&self, initial_response: &Response, old_diffs: &Vec<String>) -> (r: Result<
        (bool, Vec<String>),
        DiffError,
    >)
        ensures
            ({
                let outcome = diff_outcome(
                    response_text(self.http_version, self.code, self.text@),
                    response_text(
                        initial_response.http_version,
                        initial_response.code,
                        initial_response.text@,
                    ),
                );
                &&& r is Ok <==> outcome is Ok
                &&& r matches Ok((code_diff, ds)) ==> {
                    &&& code_diff == (initial_response.code != self.code)
                    &&& sorted_lex(views(ds@))
                    &&& views(ds@).to_multiset() == new_diffs(
                        outcome->Ok_0,
                        views(old_diffs@),
                    ).to_multiset()
                    &&& forall|x: Seq<char>|
                        #[trigger] views(ds@).contains(x) ==> exists|i: int|
                            0 <= i < outcome->Ok_0.len() && !views(old_diffs@).contains(
                                #[trigger] outcome->Ok_0[i],
                            ) && (x == outcome->Ok_0[i] || exists|n: nat|
                                x == numbered(outcome->Ok_0[i], n))
                    &&& forall|i: int|
                        0 <= i < outcome->Ok_0.len() && !views(old_diffs@).contains(
                            #[trigger] outcome->Ok_0[i],
                        ) ==> views(ds@).contains(outcome->Ok_0[i])
                }
            }),
            (self.http_version == initial_response.http_version && self.code
                == initial_response.code && self.text@ == initial_response.text@) ==> (r matches Ok(
                (code_diff, ds),
            ) && !code_diff && ds@.len() == 0),
    {
        let is_code_diff = initial_response.code != self.code;
        let found = match diff(self.print().as_str(), initial_response.print().as_str()) {
            Ok(v) => v,
            Err(e) => {
                return Err(e);
            },
        };
        let ghost fv = views(found@);
        let ghost ov = views(old_diffs@);
        let mut diffs: Vec<String> = Vec::new();
        let mut i: usize = 0;
        while i < found.len()
            invariant
                i <= found.len(),
                fv == views(found@),
                ov == views(old_diffs@),
                views(diffs@) == new_diffs(fv.take(i as int), ov),
            decreases found.len() - i,
        {
            assert(fv.take(i + 1).drop_last() =~= fv.take(i as int));
            assert(fv.take(i + 1).last() == found@[i as int]@);
            let d = &found[i];
            let ghost ds = views(diffs@);
            let in_old = contains_string(old_diffs, d);
            let in_new = contains_string(&diffs, d);
            if !in_old {
                if !in_new {
                    diffs.push(d.clone());
                    assert(views(diffs@) =~= ds.push(d@));
                } else {
                    let mut c: u128 = 1;
                    let mut candidate = numbered_exec(d, 1);
                    while c <= diffs.len() as u128 && contains_string(&diffs, &candidate)
                        invariant
                            1 <= c <= diffs@.len() + 1,
                            ds == views(diffs@),
                            candidate@ == numbered(d@, c as nat),
                            first_free_number(ds, d@, 1) == first_free_number(ds, d@, c as nat),
                        decreases diffs.len() + 1 - c,
                    {
                        c = c + 1;
                        candidate = numbered_exec(d, c);
                    }
                    assert(first_free_number(ds, d@, c as nat) == c as nat);
                    diffs.push(candidate);
                    assert(views(diffs@) =~= ds.push(numbered(d@, first_free_number(ds, d@, 1))));
                }
            }
            i = i + 1;
        }
        assert(fv.take(i as int) =~= fv);
        let sorted = sort_strings(diffs);
        proof {
            broadcast use vstd::seq_lib::group_to_multiset_ensures;

            lemma_new_diffs(fv, ov);
            let nd = new_diffs(fv, ov);
            assert forall|x: Seq<char>| #[trigger] views(sorted@).contains(x) <==> nd.contains(x) by {
                assert(views(sorted@).to_multiset().count(x) == nd.to_multiset().count(x));
            }
        }
        Ok((is_code_diff, sorted))
    }

    /// Adds line breaks to the text to make line diffs finer (see `beautified`).
    pub fn beautify_body(&mut self)
        ensures
            final(self).text@ == beautified(header_views(old(self).headers@), old(self).text@),
            final(self).headers == old(self).headers,
            final(self).code == old(self).code,
            final(self).time == old(self).time,
            final(self).reflected_parameters == old(self).reflected_parameters,
            final(self).request == old(self).request,
            final(self).http_version == old(self).http_version,
    {
        let text = chars_of(self.text.as_str());
        let is_json_type = if self.headers.contains_key("content-type") {
            proof {
                lemma_exact_header_found_ci(header_views(self.headers@), "content-type"@);
            }
            match self.headers.get_value_case_insensitive("content-type") {
                Some(v) => contains_exec(&chars_of(v.as_str()), &chars_of("json")),
                None => false,
            }
        } else {
            false
        };
        let json = is_json_type || (starts_with_exec(&text, &chars_of("{")) && ends_with_exec(
            &text,
            &chars_of("}"),
        ));
        if json {
            let b = replace_exec(&text, &chars_of("\\\""), &chars_of("'"));
            let b = replace_exec(&b, &chars_of("\","), &chars_of("\",\n"));
            let b = string_from_chars(&b);
            let b = replace_by_pattern(
                "(?P<bracket>(\\{\"|\"\\}|\\[(\"|\\d)|(\"|\\d)\\]))",
                b,
                "${bracket}\n",
            );
            let b = replace_by_pattern(
                "(?P<first>\"[\\w\\.-]*\"):(?P<second>\\d+),",
                b,
                "$first:$second,\n",
            );
            let b = replace_by_pattern(
                "(?P<first>\"[\\w\\.-]*\"):(?P<second>(false|null|true)),",
                b,
                "$first:$second,\n",
            );
            self.text = b;
        } else {
            self.text = string_from_chars(&replace_exec(&text, &chars_of(">"), &chars_of(">\n")));
        }
    }

    /// Puts the headers, sorted, as lines before the text.
    pub fn add_headers(&mut self)
        ensures
            exists|sorted: Seq<(Seq<char>, Seq<char>)>|
                #[trigger] is_sorted_of(sorted, header_views(old(self).headers@))
                    && final(self).text@ == header_lines(sorted) + "\n"@ + old(self).text@,
            final(self).headers == old(self).headers,
            final(self).code == old(self).code,
            final(self).time == old(self).time,
            final(self).reflected_parameters == old(self).reflected_parameters,
            final(self).request == old(self).request,
            final(self).http_version == old(self).http_version,
    {
        let sorted = sort_pairs(clone_headers(&self.headers));
        let mut text = header_lines_exec(&sorted);
        text.append("\n");
        text.append(self.text.as_str());
        assert(is_sorted_of(crate::text::pair_views(sorted@), header_views(self.headers@)));
        self.text = text;
    }

    /// The class of the status code.
    pub fn kind(&self) -> (r: Status)
        ensures
            r == status_of(self.code),
    {
        if self.code <= 199 {
            Status::Other
        } else if self.code <= 299 {
            Status::Success
        } else if self.code <= 399 {
            Status::Redirect
        } else if self.code <= 499 {
            Status::UserFault
        } else if self.code <= 599 {
            Status::ServerFault
        } else {
            Status::Other
        }
    }

    /// The status code in the color of its class.
    pub fn code(&self) -> (r: String)
        ensures
            painted(decimal(self.code as nat), status_color(status_of(self.code)), r@),
    {
        let color = match self.kind() {
            Status::Success => Color::BrightGreen,
            Status::Redirect => Color::BrightBlue,
            Status::UserFault => Color::BrightYellow,
            Status::ServerFault => Color::BrightRed,
            Status::Other => Color::Magenta,
        };
        let digits = string_from_chars(&decimal_exec(self.code as u128));
        paint(digits.as_str(), color)
    }

    /// Records the parameters reflected a different number of times than a parameter
    /// that does not exist (parameters with fixed values are not counted), with the
    /// number of times each is reflected beyond the initial response.
    pub fn fill_reflected_parameters(&mut self, initial_response: &Response)
        requires
            old(self).request is Some,
            distinct_names(count_views(old(self).reflected_parameters@)),
            lowercase(old(self).text@).len() < usize::MAX,
            lowercase(initial_response.text@).len() < usize::MAX,
            reflections_ok(
                counted_parameters(
                    crate::text::pair_views(old(self).request->0.prepared_parameters@),
                    crate::text::pair_views(old(self).request->0.non_random_parameters@),
                ),
                old(self).text@,
                initial_response.text@,
            ),
        ensures
            count_views(final(self).reflected_parameters@) == with_reflections(
                count_views(old(self).reflected_parameters@),
                counted_parameters(
                    crate::text::pair_views(old(self).request->0.prepared_parameters@),
                    crate::text::pair_views(old(self).request->0.non_random_parameters@),
                ),
                old(self).text@,
                initial_response.text@,
                old(self).request->0.defaults.amount_of_reflections as nat,
            ),
            distinct_names(count_views(final(self).reflected_parameters@)),
            final(self).text == old(self).text,
            final(self).headers == old(self).headers,
            final(self).code == old(self).code,
            final(self).time == old(self).time,
            final(self).request == old(self).request,
            final(self).http_version == old(self).http_version,
    {
        let req = self.request.as_ref().unwrap();
        let params = counted_parameters_exec(&req.prepared_parameters, &req.non_random_parameters);
        let expected = req.defaults.amount_of_reflections;
        let ghost pv = crate::text::pair_views(params@);
        let ghost m0 = count_views(self.reflected_parameters@);
        let mut reflected = Vec::new();
        std::mem::swap(&mut reflected, &mut self.reflected_parameters);
        let mut i: usize = 0;
        while i < params.len()
            invariant
                i <= params.len(),
                pv == crate::text::pair_views(params@),
                reflections_ok(pv, self.text@, initial_response.text@),
                lowercase(self.text@).len() < usize::MAX,
                lowercase(initial_response.text@).len() < usize::MAX,
                count_views(reflected@) == with_reflections(
                    m0,
                    pv.take(i as int),
                    self.text@,
                    initial_response.text@,
                    expected as nat,
                ),
                distinct_names(count_views(reflected@)),
            decreases params.len() - i,
        {
            assert(pv.take(i + 1).drop_last() =~= pv.take(i as int));
            assert(pv.take(i + 1).last() == pv[i as int]);
            assert(reflections(self.text@, pv[i as int].1) >= reflections(
                initial_response.text@,
                pv[i as int].1,
            ));
            let here = self.count(params[i].1.as_str());
            let before = initial_response.count(params[i].1.as_str());
            let new_count = here - before;
            if expected != new_count {
                count_insert_exec(&mut reflected, &params[i].0, new_count);
            }
            i = i + 1;
        }
        assert(pv.take(i as int) =~= pv);
        self.reflected_parameters = reflected;
    }

    /// Records the reflected parameters where counting cannot underflow (see
    /// `fill_reflected_parameters`), and tells whether it did; otherwise the response
    /// is left as it is.
    pub fn try_fill_reflected_parameters(&mut self, initial_response: &Response) -> (r: bool)
        ensures
            r <==> (old(self).request is Some && distinct_names(
                count_views(old(self).reflected_parameters@),
            ) && lowercase(old(self).text@).len() < usize::MAX && lowercase(
                initial_response.text@,
            ).len() < usize::MAX && reflections_ok(
                counted_parameters(
                    crate::text::pair_views(old(self).request->0.prepared_parameters@),
                    crate::text::pair_views(old(self).request->0.non_random_parameters@),
                ),
                old(self).text@,
                initial_response.text@,
            )),
            r ==> count_views(final(self).reflected_parameters@) == with_reflections(
                count_views(old(self).reflected_parameters@),
                counted_parameters(
                    crate::text::pair_views(old(self).request->0.prepared_parameters@),
                    crate::text::pair_views(old(self).request->0.non_random_parameters@),
                ),
                old(self).text@,
                initial_response.text@,
                old(self).request->0.defaults.amount_of_reflections as nat,
            ),
            !r ==> *final(self) == *old(self),
    {
        let req = match self.request.as_ref() {
            Some(req) => req,
            None => {
                return false;
            },
        };
        if !distinct_names_exec(&self.reflected_parameters) {
            return false;
        }
        let lower = to_lowercase(self.text.as_str());
        let lower_initial = to_lowercase(initial_response.text.as_str());
        let n_here = chars_of(lower.as_str()).len();
        let n_initial = chars_of(lower_initial.as_str()).len();
        assert(n_here == lowercase(old(self).text@).len());
        assert(n_initial == lowercase(initial_response.text@).len());
        if n_here == usize::MAX || n_initial == usize::MAX {
            return false;
        }
        let params = counted_parameters_exec(&req.prepared_parameters, &req.non_random_parameters);
        let ghost pv = crate::text::pair_views(params@);
        let mut i: usize = 0;
        while i < params.len()
            invariant
                i <= params.len(),
                pv == crate::text::pair_views(params@),
                *self == *old(self),
                self.request is Some,
                pv == counted_parameters(
                    crate::text::pair_views(self.request->0.prepared_parameters@),
                    crate::text::pair_views(self.request->0.non_random_parameters@),
                ),
                lowercase(self.text@).len() < usize::MAX,
                lowercase(initial_response.text@).len() < usize::MAX,
                forall|m: int|
                    0 <= m < i ==> reflections(self.text@, (#[trigger] pv[m]).1) >= reflections(
                        initial_response.text@,
                        pv[m].1,
                    ),
            decreases params.len() - i,
        {
            let here = self.count(params[i].1.as_str());
            let before = initial_response.count(params[i].1.as_str());
            if here < before {
                assert(reflections(self.text@, pv[i as int].1) < reflections(
                    initial_response.text@,
                    pv[i as int].1,
                ));
                return false;
            }
            i = i + 1;
        }
        self.fill_reflected_parameters(initial_response);
        true
    }

    /// Which parameter the reflections point to, and whether the chunk of parameters
    /// should be checked again (see `reflected_decision`).
    pub fn proceed_reflected_parameters(&self) -> (r: (Option<String>, bool))
        ensures
            (crate::network::utils::opt_view(r.0), r.1) == reflected_decision(
                count_views(self.reflected_parameters@),
            ),
    {
        let m = &self.reflected_parameters;
        let ghost mv = count_views(m@);
        if m.len() == 0 {
            return (None, false);
        }
        if m.len() == 1 {
            return (Some(m[0].0.clone()), false);
        }
        let counts = distinct_counts_exec(m);
        if counts.len() == 2 {
            let c0 = counts[0];
            if with_count_exec(m, c0) == 1 {
                return (Some(first_with_count_exec(m, c0)), true);
            }
            let c1 = counts[1];
            if with_count_exec(m, c1) == 1 {
                return (Some(first_with_count_exec(m, c1)), true);
            }
        }
        (None, true)
    }

    /// Words of the page that may be parameter names: names of form inputs, declared
    /// variables, words in quotes and object keys; sorted, without repetitions.
    pub fn get_possible_parameters(&self) -> (r: Vec<String>)
        ensures
            crate::text::strictly_sorted_lex(views(r@)),
            views(r@).to_set() == possible_parameters(self.text@).to_set(),
    {
        let body = self.text.as_str();
        let mut found: Vec<String> = Vec::new();
        let ghost mut expected: Seq<Seq<char>> = Seq::empty();
        collect_stripped(&mut found, r#"(?i)name=("|')?[\w-]+"#, body, r#"(?i)name=("|')?"#);
        collect_stripped(&mut found, r#"(?i)(var|let|const)\s+?[\w-]+"#, body, r#"(?i)(var|let|const)\s+?"#);
        collect_stripped(&mut found, r#"("|')[a-zA-Z0-9]{3,20}('|")"#, body, r#"[\W]"#);
        collect_stripped(&mut found, r#"[\{,]\s*[[:alpha:]]\w{2,25}:"#, body, r#"[\W]"#);
        assert(views(found@) =~= possible_parameters(self.text@));
        crate::text::sort_dedup_strings(found)
    }

    /// The request and the response as text.
    pub fn print_all(&self) -> (r: String)
        requires
            self.request is Some,
        ensures
            exists|sorted: Seq<(Seq<char>, Seq<char>)>|
                #[trigger] is_sorted_of(sorted, header_views(self.request->0.headers@)) && r@
                    == crate::network::request::request_text(
                    self.request->0.defaults.method@,
                    self.request->0.path@,
                    self.request->0.defaults.host@,
                    sorted,
                    self.request->0.body@,
                ) + response_text(self.http_version, self.code, self.text@),
    {
        let req = self.request.as_ref().unwrap();
        let mut out = req.print_sent();
        out.append(self.print().as_str());
        out
    }
}

/// A header with exactly the name is also found ignoring case.
pub proof fn lemma_exact_header_found_ci(hs: Seq<(Seq<char>, Seq<char>)>, key: Seq<char>)
    requires
        has_header(hs, key),
    ensures
        header_value_ci(hs, key) is Some,
{
    let i = choose|i: int| 0 <= i < hs.len() && (#[trigger] hs[i]).0 == key;
    lemma_first_value_found(hs, |k: Seq<char>| lowercase(k) == lowercase(key), 0, i);
}

proof fn lemma_first_value_found(
    hs: Seq<(Seq<char>, Seq<char>)>,
    f: spec_fn(Seq<char>) -> bool,
    from: int,
    i: int,
)
    requires
        0 <= from <= i < hs.len(),
        f(hs[i].0),
    ensures
        crate::network::utils::first_value_from(hs, f, from) is Some,
    decreases i - from,
{
    if from < i && !f(hs[from].0) {
        lemma_first_value_found(hs, f, from + 1, i);
    }
}

/// The matches of a pattern, each with a second pattern removed from it.
pub open spec fn stripped_matches(pattern: Seq<char>, text: Seq<char>, strip: Seq<char>) -> Seq<
    Seq<char>,
> {
    match regex_matches_result(pattern, text) {
        Some(ms) => ms.map_values(|m: Seq<char>| replaced_by_pattern(strip, m, ""@)),
        None => Seq::empty(),
    }
}

/// The words of a page that may be parameter names, in the order found.
pub open spec fn possible_parameters(text: Seq<char>) -> Seq<Seq<char>> {
    stripped_matches(r#"(?i)name=("|')?[\w-]+"#@, text, r#"(?i)name=("|')?"#@) + stripped_matches(
        r#"(?i)(var|let|const)\s+?[\w-]+"#@,
        text,
        r#"(?i)(var|let|const)\s+?"#@,
    ) + stripped_matches(r#"("|')[a-zA-Z0-9]{3,20}('|")"#@, text, r#"[\W]"#@) + stripped_matches(
        r#"[\{,]\s*[[:alpha:]]\w{2,25}:"#@,
        text,
        r#"[\W]"#@,
    )
}

/// Appends the matches of `pattern` in `text`, each with `strip` removed from it.
fn collect_stripped(found: &mut Vec<String>, pattern: &str, text: &str, strip: &str)
    ensures
        views(final(found)@) == views(old(found)@) + stripped_matches(pattern@, text@, strip@),
{
    let ghost before = views(found@);
    match regex_matches(pattern, text) {
        Some(ms) => {
            let ghost mv = ms@.map_values(|s: String| s@);
            let mut i: usize = 0;
            while i < ms.len()
                invariant
                    i <= ms.len(),
                    mv == ms@.map_values(|s: String| s@),
                    views(found@) == before + mv.take(i as int).map_values(
                        |m: Seq<char>| replaced_by_pattern(strip@, m, ""@),
                    ),
                decreases ms.len() - i,
            {
                let ghost prev = found@;
                let stripped = replace_by_pattern(strip, ms[i].clone(), "");
                found.push(stripped);
                proof {
                    crate::text::lemma_views_add(prev, seq![stripped]);
                    assert(mv.take(i + 1) =~= mv.take(i as int).push(mv[i as int]));
                    assert(mv.take(i + 1).map_values(
                        |m: Seq<char>| replaced_by_pattern(strip@, m, ""@),
                    ) =~= mv.take(i as int).map_values(
                        |m: Seq<char>| replaced_by_pattern(strip@, m, ""@),
                    ).push(replaced_by_pattern(strip@, mv[i as int], ""@)));
                    assert(prev.push(stripped) =~= prev + seq![stripped]);
                    assert(views(seq![stripped]) =~= seq![stripped@]);
                }
                i = i + 1;
            }
            assert(mv.take(i as int) =~= mv);
        },
        None => {
            assert(views(found@) =~= before + Seq::<Seq<char>>::empty());
        },
    }
}

/// The prepared parameters without those with fixed values.
pub fn counted_parameters_exec(prepared: &Vec<(String, String)>, fixed: &Vec<(String, String)>) -> (r: Vec<
    (String, String),
>)
    ensures
        crate::text::pair_views(r@) == counted_parameters(
            crate::text::pair_views(prepared@),
            crate::text::pair_views(fixed@),
        ),
{
    let ghost pv = crate::text::pair_views(prepared@);
    let ghost fv = crate::text::pair_views(fixed@);
    assert(fv == header_views(fixed@));
    let mut out: Vec<(String, String)> = Vec::new();
    let mut i: usize = 0;
    while i < prepared.len()
        invariant
            i <= prepared.len(),
            pv == crate::text::pair_views(prepared@),
            fv == header_views(fixed@),
            crate::text::pair_views(out@) == counted_parameters(pv.take(i as int), fv),
        decreases prepared.len() - i,
    {
        assert(pv.take(i + 1).drop_last() =~= pv.take(i as int));
        assert(pv.take(i + 1).last() == pv[i as int]);
        if !fixed.contains_key(prepared[i].0.as_str()) {
            let ghost prev = crate::text::pair_views(out@);
            let pair = (prepared[i].0.clone(), prepared[i].1.clone());
            out.push(pair);
            assert(crate::text::pair_views(out@) =~= prev.push(pv[i as int]));
        }
        i = i + 1;
    }
    assert(pv.take(i as int) =~= pv);
    out
}

/// Whether the names are distinct.
pub fn distinct_names_exec(m: &Vec<(String, usize)>) -> (r: bool)
    ensures
        r == distinct_names(count_views(m@)),
{
    let ghost mv = count_views(m@);
    let mut j: usize = 0;
    while j < m.len()
        invariant
            j <= m.len(),
            mv == count_views(m@),
            forall|a: int, b: int| 0 <= a < b < j ==> (#[trigger] mv[a]).0 != (#[trigger] mv[b]).0,
        decreases m.len() - j,
    {
        let mut a: usize = 0;
        while a < j
            invariant
                a <= j < m.len(),
                mv == count_views(m@),
                forall|x: int| 0 <= x < a ==> (#[trigger] mv[x]).0 != mv[j as int].0,
            decreases j - a,
        {
            if str_eq(m[a].0.as_str(), m[j].0.as_str()) {
                assert(mv[a as int].0 == mv[j as int].0);
                return false;
            }
            a = a + 1;
        }
        j = j + 1;
    }
    true
}

/// Inserts a count for a name: replaces the count of the name if present, adds it otherwise.
pub fn count_insert_exec(m: &mut Vec<(String, usize)>, k: &String, v: usize)
    requires
        distinct_names(count_views(old(m)@)),
    ensures
        count_views(final(m)@) == count_insert(count_views(old(m)@), k@, v as nat),
        distinct_names(count_views(final(m)@)),
{
    let ghost mv = count_views(m@);
    let mut i: usize = 0;
    while i < m.len()
        invariant
            i <= m.len(),
            mv == count_views(m@),
            m@ == old(m)@,
            distinct_names(mv),
            forall|x: int| 0 <= x < i ==> (#[trigger] mv[x]).0 != k@,
        decreases m.len() - i,
    {
        if str_eq(m[i].0.as_str(), k.as_str()) {
            assert(mv[i as int].0 == k@);
            assert(exists|x: int| 0 <= x < mv.len() && (#[trigger] mv[x]).0 == k@);
            let ghost idx = choose|x: int| 0 <= x < mv.len() && (#[trigger] mv[x]).0 == k@;
            assert(idx == i);
            m.set(i, (k.clone(), v));
            assert(count_views(m@) =~= mv.update(i as int, (k@, v as nat)));
            return;
        }
        i = i + 1;
    }
    let ghost prev = m@;
    m.push((k.clone(), v));
    assert(count_views(m@) =~= mv.push((k@, v as nat)));
}

/// The counts in order of first occurrence.
fn distinct_counts_exec(m: &Vec<(String, usize)>) -> (r: Vec<usize>)
    ensures
        r@.map_values(|c: usize| c as nat) == distinct_counts(count_views(m@)),
{
    let ghost mv = count_views(m@);
    let mut out: Vec<usize> = Vec::new();
    let mut i: usize = 0;
    while i < m.len()
        invariant
            i <= m.len(),
            mv == count_views(m@),
            out@.map_values(|c: usize| c as nat) == distinct_counts(mv.take(i as int)),
        decreases m.len() - i,
    {
        assert(mv.take(i + 1).drop_last() =~= mv.take(i as int));
        assert(mv.take(i + 1).last() == mv[i as int]);
        let ghost d = out@.map_values(|c: usize| c as nat);
        let mut seen = false;
        let mut k: usize = 0;
        while k < out.len()
            invariant
                k <= out.len(),
                i < m.len(),
                mv == count_views(m@),
                d == out@.map_values(|c: usize| c as nat),
                seen <==> exists|x: int| 0 <= x < k && d[x] == mv[i as int].1,
            decreases out.len() - k,
        {
            if out[k] == m[i].1 {
                assert(d[k as int] == mv[i as int].1);
                seen = true;
            }
            k = k + 1;
        }
        if !seen {
            out.push(m[i].1);
            assert(out@.map_values(|c: usize| c as nat) =~= d.push(mv[i as int].1));
            assert(!d.contains(mv[i as int].1));
        } else {
            assert(d.contains(mv[i as int].1));
        }
        i = i + 1;
    }
    assert(mv.take(i as int) =~= mv);
    out
}

/// The number of parameters with this count.
fn with_count_exec(m: &Vec<(String, usize)>, c: usize) -> (r: usize)
    ensures
        r as nat == with_count(count_views(m@), c as nat),
{
    let ghost mv = count_views(m@);
    let mut n: usize = 0;
    let mut i: usize = 0;
    while i < m.len()
        invariant
            i <= m.len(),
            mv == count_views(m@),
            n as nat == with_count(mv.take(i as int), c as nat),
            n <= i,
        decreases m.len() - i,
    {
        assert(mv.take(i + 1).drop_last() =~= mv.take(i as int));
        assert(mv.take(i + 1).last() == mv[i as int]);
        if m[i].1 == c {
            n = n + 1;
        }
        i = i + 1;
    }
    assert(mv.take(i as int) =~= mv);
    n
}

/// The name of the first parameter with this count.
fn first_with_count_exec(m: &Vec<(String, usize)>, c: usize) -> (r: String)
    ensures
        r@ == first_with_count(count_views(m@), c as nat),
{
    let ghost mv = count_views(m@);
    let mut i: usize = 0;
    while i < m.len()
        invariant
            i <= m.len(),
            mv == count_views(m@),
            with_count(mv.take(i as int), c as nat) == 0,
            first_with_count(mv.take(i as int), c as nat) == Seq::<char>::empty(),
        decreases m.len() - i,
    {
        assert(mv.take(i + 1).drop_last() =~= mv.take(i as int));
        assert(mv.take(i + 1).last() == mv[i as int]);
        if m[i].1 == c {
            proof {
                lemma_first_with_count_stable(mv, i as int, c as nat);
            }
            return m[i].0.clone();
        }
        i = i + 1;
    }
    assert(mv.take(i as int) =~= mv);
    String::new()
}

/// Where some parameter has a count, the first name with it is a parameter with it.
proof fn lemma_first_with_count_found(m: Seq<(Seq<char>, nat)>, c: nat)
    requires
        with_count(m, c) > 0,
    ensures
        exists|i: int| 0 <= i < m.len() && (#[trigger] m[i]).1 == c && m[i].0 == first_with_count(m, c),
    decreases m.len(),
{
    let d = m.drop_last();
    if with_count(d, c) > 0 {
        lemma_first_with_count_found(d, c);
        let i = choose|i: int| 0 <= i < d.len() && (#[trigger] d[i]).1 == c && d[i].0
            == first_with_count(d, c);
        assert(m[i] == d[i]);
    } else {
        assert(m[m.len() - 1] == m.last());
    }
}

/// How the reflected parameters decide, grouped by their counts: with two or more of
/// them the chunk is checked again; a parameter is named only when the counts form
/// exactly two groups and it is alone in its group; and one is named whenever there
/// are exactly two groups and one of them has a single parameter.
pub proof fn lemma_reflected_decision(m: Seq<(Seq<char>, nat)>)
    ensures
        m.len() == 0 ==> reflected_decision(m) == (None::<Seq<char>>, false),
        m.len() == 1 ==> reflected_decision(m) == (Some(m[0].0), false),
        m.len() > 0 ==> reflected_decision(m).0 is Some || reflected_decision(m).1,
        reflected_decision(m).0 matches Some(k) ==> exists|i: int|
            0 <= i < m.len() && (#[trigger] m[i]).0 == k,
        m.len() >= 2 ==> reflected_decision(m).1,
        m.len() >= 2 && reflected_decision(m).0 is Some ==> distinct_counts(m).len() == 2 && exists|
            i: int,
        |
            0 <= i < m.len() && (#[trigger] m[i]).0 == reflected_decision(m).0->0 && with_count(
                m,
                m[i].1,
            ) == 1,
        m.len() >= 2 && distinct_counts(m).len() == 2 && (exists|c: nat|
            distinct_counts(m).contains(c) && #[trigger] with_count(m, c) == 1) ==> reflected_decision(
            m,
        ).0 is Some,
{
    if m.len() == 1 {
        assert(m[0].0 == m[0].0);
    }
    if m.len() >= 2 {
        let cs = distinct_counts(m);
        if cs.len() == 2 && with_count(m, cs[0]) == 1 {
            lemma_first_with_count_found(m, cs[0]);
        } else if cs.len() == 2 && with_count(m, cs[1]) == 1 {
            lemma_first_with_count_found(m, cs[1]);
        }
    }
}

/// Once a count occurs, extending the list keeps the first name with it.
proof fn lemma_first_with_count_stable(m: Seq<(Seq<char>, nat)>, i: int, c: nat)
    requires
        0 <= i < m.len(),
        with_count(m.take(i), c) == 0,
        m[i].1 == c,
    ensures
        first_with_count(m, c) == m[i].0,
        with_count(m.take(i + 1), c) > 0,
    decreases m.len() - i,
{
    assert(m.take(i + 1).drop_last() =~= m.take(i));
    assert(first_with_count(m.take(i + 1), c) == m[i].0);
    lemma_first_with_count_prefix(m, i + 1, c);
}

/// The first name with a count, once found in a prefix, stays the first one.
proof fn lemma_first_with_count_prefix(m: Seq<(Seq<char>, nat)>, n: int, c: nat)
    requires
        0 < n <= m.len(),
        with_count(m.take(n), c) > 0,
    ensures
        first_with_count(m, c) == first_with_count(m.take(n), c),
        with_count(m, c) > 0,
    decreases m.len() - n,
{
    if n < m.len() {
        assert(m.take(n + 1).drop_last() =~= m.take(n));
        lemma_first_with_count_prefix(m, n + 1, c);
    } else {
        assert(m.take(n) =~= m);
    }
}

/// A replacement with a pattern; the text is kept where the pattern does not compile.
fn replace_by_pattern(pattern: &str, text: String, replacement: &str) -> (r: String)
    ensures
        r@ == replaced_by_pattern(pattern@, text@, replacement@),
{
    match regex_replace_all(pattern, text.as_str(), replacement) {
        Some(t) => t,
        None => text,
    }
}

/// Whether a string is among the strings.
pub fn contains_string(v: &Vec<String>, s: &String) -> (r: bool)
    ensures
        r == views(v@).contains(s@),
{
    let mut i: usize = 0;
    while i < v.len()
        invariant
            i <= v.len(),
            forall|m: int| 0 <= m < i ==> (#[trigger] v@[m])@ != s@,
        decreases v.len() - i,
    {
        if str_eq(v[i].as_str(), s.as_str()) {
            assert(views(v@)[i as int] == s@);
            return true;
        }
        i = i + 1;
    }
    assert(!views(v@).contains(s@)) by {
        if views(v@).contains(s@) {
            let j = choose|j: int| 0 <= j < views(v@).len() && views(v@)[j] == s@;
            assert(v@[j]@ == s@);
        }
    }
    false
}

/// `diff (n)`.
fn numbered_exec(d: &String, n: u128) -> (r: String)
    ensures
        r@ == numbered(d@, n as nat),
{
    let mut out = d.clone();
    out.append(" (");
    out.append(string_from_chars(&decimal_exec(n)).as_str());
    out.append(")");
    out
}

/// The size of a text in bytes.
pub open spec fn byte_len(text: Seq<char>) -> nat {
    vstd::utf8::encode_utf8(text).len()
}

/// `s` is a code painted in the color of its class.
pub open spec fn painted_code(code: u16, s: Seq<char>) -> bool {
    painted(decimal(code as nat), status_color(status_of(code)), s)
}

/// `s` is the prefix that tells which runner reports: its id in its color and `) `,
/// or nothing.
pub open spec fn id_prefix(id: Option<usize>, s: Seq<char>) -> bool {
    match id {
        Some(n) => exists|c: Seq<char>|
            #[trigger] painted(decimal(n as nat), crate::utils::id_color(n as nat), c) && s == c
                + ") "@,
        None => s == Seq::<char>::empty(),
    }
}

/// `m` reports a found parameter: by the code change (`p: code 200 -> 404`), by the page
/// size change with the change (`p: page 10 -> 12 (diff)`), or as reflected or not;
/// with ` [saved to path]` when the response was saved.
pub open spec fn found_message_text(
    m: Seq<char>,
    id: Option<usize>,
    initial_code: u16,
    code: u16,
    initial_size: nat,
    size: nat,
    kind: crate::runner::utils::ReasonKind,
    parameter: Seq<char>,
    diff: Seq<char>,
    saved_to: Option<Seq<char>>,
) -> bool {
    let tail = match saved_to {
        Some(p) => " [saved to "@ + p + "]"@,
        None => Seq::<char>::empty(),
    };
    match kind {
        crate::runner::utils::ReasonKind::Code => exists|idp: Seq<char>, a: Seq<char>, b: Seq<char>|
            #![trigger id_prefix(id, idp), painted_code(initial_code, a), painted_code(code, b)]
            id_prefix(id, idp) && painted_code(initial_code, a) && painted_code(code, b) && m == idp
                + parameter + ": code "@ + a + " -> "@ + b + tail,
        crate::runner::utils::ReasonKind::Text => exists|idp: Seq<char>, b: Seq<char>|
            #![trigger id_prefix(id, idp), painted(decimal(size), Color::BrightYellow, b)]
            id_prefix(id, idp) && painted(decimal(size), Color::BrightYellow, b) && m == idp
                + parameter + ": page "@ + decimal(initial_size) + " -> "@ + b + " ("@ + diff + ")"@
                + tail,
        crate::runner::utils::ReasonKind::Reflected => exists|idp: Seq<char>, b: Seq<char>|
            #![trigger id_prefix(id, idp), painted("reflects"@, Color::BrightBlue, b)]
            id_prefix(id, idp) && painted("reflects"@, Color::BrightBlue, b) && m == idp + b
                + ": "@ + parameter + tail,
        crate::runner::utils::ReasonKind::NotReflected => exists|idp: Seq<char>, b: Seq<char>|
            #![trigger id_prefix(id, idp), painted("not reflected one"@, Color::BrightCyan, b)]
            id_prefix(id, idp) && painted("not reflected one"@, Color::BrightCyan, b) && m == idp
                + b + ": "@ + parameter + tail,
    }
}

/// The id of a runner in its color and `) `, or nothing.
fn id_prefix_exec(id: Option<usize>) -> (r: String)
    ensures
        id_prefix(id, r@),
{
    match id {
        Some(n) => {
            let mut c = crate::utils::color_id(n);
            let ghost painted_id = c@;
            c.append(") ");
            c
        },
        None => String::new(),
    }
}

/// The decimal digits of a number.
fn decimal_string(n: usize) -> (r: String)
    ensures
        r@ == decimal(n as nat),
{
    string_from_chars(&decimal_exec(n as u128))
}

impl<'a> Response<'a> {
    /// The line that reports a parameter found by this response (see `found_message_text`);
    /// `id` is given where several runners print at once.
    pub fn found_message(
        &self,
        id: Option<usize>,
        initial_response: &Response,
        reason_kind: crate::runner::utils::ReasonKind,
        parameter: &str,
        diff: Option<&str>,
        saved_to: Option<&str>,
    ) -> (r: String)
        requires
            reason_kind == crate::runner::utils::ReasonKind::Text ==> diff is Some,
        ensures
            found_message_text(
                r@,
                id,
                initial_response.code,
                self.code,
                byte_len(initial_response.text@),
                byte_len(self.text@),
                reason_kind,
                parameter@,
                match diff {
                    Some(d) => d@,
                    None => Seq::<char>::empty(),
                },
                match saved_to {
                    Some(p) => Some(p@),
                    None => None,
                },
            ),
    {
        let mut tail = String::new();
        match saved_to {
            Some(p) => {
                tail.append(" [saved to ");
                tail.append(p);
                tail.append("]");
            },
            None => {},
        }
        let mut m = id_prefix_exec(id);
        let ghost idp = m@;
        match reason_kind {
            crate::runner::utils::ReasonKind::Code => {
                let ca = initial_response.code();
                let cb = self.code();
                m.append(parameter);
                m.append(": code ");
                m.append(ca.as_str());
                m.append(" -> ");
                m.append(cb.as_str());
                m.append(tail.as_str());
                assert(id_prefix(id, idp) && painted_code(initial_response.code, ca@)
                    && painted_code(self.code, cb@));
            },
            crate::runner::utils::ReasonKind::Text => {
                let initial_size = decimal_string(initial_response.text.as_str().as_bytes().len());
                let size = paint(
                    decimal_string(self.text.as_str().as_bytes().len()).as_str(),
                    Color::BrightYellow,
                );
                m.append(parameter);
                m.append(": page ");
                m.append(initial_size.as_str());
                m.append(" -> ");
                m.append(size.as_str());
                m.append(" (");
                m.append(diff.unwrap());
                m.append(")");
                m.append(tail.as_str());
                assert(id_prefix(id, idp) && painted(
                    decimal(byte_len(self.text@)),
                    Color::BrightYellow,
                    size@,
                ));
            },
            crate::runner::utils::ReasonKind::Reflected => {
                let w = paint("reflects", Color::BrightBlue);
                m.append(w.as_str());
                m.append(": ");
                m.append(parameter);
                m.append(tail.as_str());
                assert(id_prefix(id, idp) && painted("reflects"@, Color::BrightBlue, w@));
            },
            crate::runner::utils::ReasonKind::NotReflected => {
                let w = paint("not reflected one", Color::BrightCyan);
                m.append(w.as_str());
                m.append(": ");
                m.append(parameter);
                m.append(tail.as_str());
                assert(id_prefix(id, idp) && painted("not reflected one"@, Color::BrightCyan, w@));
            },
        }
        m
    }

    /// The line printed for a response that changed the code (`404 1234`) or the page
    /// (`200 1234 (diff)`, the size highlighted), at the highest verbosity.
    pub fn notify_message(&self, reason_kind: crate::runner::utils::ReasonKind, diff: Option<&str>) -> (r: String)
        requires
            reason_kind == crate::runner::utils::ReasonKind::Code || reason_kind
                == crate::runner::utils::ReasonKind::Text,
            reason_kind == crate::runner::utils::ReasonKind::Text ==> diff is Some,
        ensures
            reason_kind == crate::runner::utils::ReasonKind::Code ==> exists|c: Seq<char>|
                #[trigger] painted_code(self.code, c) && r@ == c + " "@ + decimal(
                    byte_len(self.text@),
                ),
            reason_kind == crate::runner::utils::ReasonKind::Text ==> exists|s: Seq<char>|
                #[trigger] painted(decimal(byte_len(self.text@)), Color::BrightYellow, s) && r@
                    == decimal(self.code as nat) + " "@ + s + " ("@ + diff->0@ + ")"@,
    {
        let size = decimal_string(self.text.as_str().as_bytes().len());
        if reason_kind == crate::runner::utils::ReasonKind::Code {
            let mut m = self.code();
            let ghost c = m@;
            m.append(" ");
            m.append(size.as_str());
            assert(painted_code(self.code, c));
            m
        } else {
            let mut m = string_from_chars(&decimal_exec(self.code as u128));
            m.append(" ");
            let s = paint(size.as_str(), Color::BrightYellow);
            m.append(s.as_str());
            m.append(" (");
            m.append(diff.unwrap());
            m.append(")");
            assert(painted(decimal(byte_len(self.text@)), Color::BrightYellow, s@));
            m
        }
    }
}

/// Where a response with a found parameter is saved: in the directory, named by the
/// host, the lowercased method, the parameter and a random word of 3 characters.
pub fn saved_file_name(save_dir: &str, response: &Response, param_key: &str) -> (r: String)
    requires
        response.request is Some,
    ensures
        exists|nonce: Seq<char>|
            #[trigger] crate::utils::is_random_word(nonce, 3) && r@ == save_dir@ + "/"@
                + response.request->0.defaults.host@ + "-"@ + lowercase(
                response.request->0.defaults.method@,
            ) + "-"@ + param_key@ + "-"@ + nonce,
{
    let req = match response.request.as_ref() {
        Some(req) => req,
        None => {
            return String::new();
        },
    };
    let mut name = string_from_chars(&chars_of(save_dir));
    name.append("/");
    name.append(req.defaults.host.as_str());
    name.append("-");
    name.append(crate::text::to_lowercase(req.defaults.method.as_str()).as_str());
    name.append("-");
    name.append(param_key);
    name.append("-");
    let nonce = crate::utils::random_line(3);
    name.append(nonce.as_str());
    assert(crate::utils::is_random_word(nonce@, 3));
    name
}

} // verus!
