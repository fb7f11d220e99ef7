//! Header lists with defaults, command line values, and raw request files.
use vstd::prelude::*;

use crate::network::utils::{has_header, header_views, Headers};
use crate::text::{
    chars_of, contains, contains_exec, lemma_split_at_least_two, split, split_exec,
    string_from_chars, trim, trim_exec, views,
};

verus! {

/// `Some` of the owned string, or `None`.
pub fn convert_to_string_if_some(el: Option<&str>) -> (r: Option<String>)
    ensures
        match el {
            Some(s) => r matches Some(t) && t@ == s@,
            None => r is None,
        },
{
    match el {
        Some(s) => Some(string_from_chars(&chars_of(s))),
        None => None,
    }
}

/// Some header name of the list contains `k`.
pub open spec fn some_name_contains(hs: Seq<(Seq<char>, Seq<char>)>, k: Seq<char>) -> bool {
    exists|i: int| 0 <= i < hs.len() && contains(#[trigger] hs[i].0, k)
}

/// The default headers whose name no header of `current` contains, in order.
pub open spec fn missing_defaults(
    defaults: Seq<(Seq<char>, Seq<char>)>,
    current: Seq<(Seq<char>, Seq<char>)>,
) -> Seq<(Seq<char>, Seq<char>)>
    decreases defaults.len(),
{
    if defaults.len() == 0 {
        Seq::empty()
    } else if some_name_contains(current, defaults.last().0) {
        missing_defaults(defaults.drop_last(), current)
    } else {
        missing_defaults(defaults.drop_last(), current).push(defaults.last())
    }
}

/// The headers a browser-like tool sends unless told otherwise.
pub open spec fn default_headers() -> Seq<(Seq<char>, Seq<char>)> {
    seq![
        ("User-Agent"@, "Mozilla/5.0 (Macintosh; Intel Mac OS X 12) AppleWebKit/601.3.9 (KHTML, like Gecko) Version/9.0.2 Firefox/99.0"@),
        ("Accept"@, "*/*"@),
        ("Accept-Encoding"@, "gzip, deflate"@),
    ]
}

/// The headers browsers usually send.
pub open spec fn browser_headers() -> Seq<(Seq<char>, Seq<char>)> {
    seq![
        ("User-Agent"@, "Mozilla/5.0 (Macintosh; Intel Mac OS X 12) AppleWebKit/601.3.9 (KHTML, like Gecko) Version/9.0.2 Firefox/99.0"@),
        ("Accept"@, "*/*"@),
        ("Accept-Language"@, "en-US;q=0.7,en;q=0.3"@),
        ("Accept-Encoding"@, "gzip, deflate"@),
        ("Dnt"@, "1"@),
        ("Upgrade-Insecure-Requests"@, "1"@),
        ("Sec-Fetch-Dest"@, "document"@),
        ("Sec-Fetch-Mode"@, "navigate"@),
        ("Sec-Fetch-Site"@, "same-site"@),
    ]
}

/// A pair of owned strings.
fn string_pair(k: &str, v: &str) -> (r: (String, String))
    ensures
        r.0@ == k@,
        r.1@ == v@,
{
    (string_from_chars(&chars_of(k)), string_from_chars(&chars_of(v)))
}

/// Whether some header name of the list contains `k`.
fn some_name_contains_exec(hs: &Vec<(String, String)>, k: &String) -> (r: bool)
    ensures
        r == some_name_contains(header_views(hs@), k@),
{
    let key = chars_of(k.as_str());
    let mut i: usize = 0;
    while i < hs.len()
        invariant
            i <= hs.len(),
            key@ == k@,
            forall|m: int| 0 <= m < i ==> !contains(#[trigger] header_views(hs@)[m].0, k@),
        decreases hs.len() - i,
    {
        if contains_exec(&chars_of(hs[i].0.as_str()), &key) {
            assert(contains(header_views(hs@)[i as int].0, k@));
            return true;
        }
        i = i + 1;
    }
    false
}

/// The defaults that no current header name contains, then the current headers.
fn with_missing_defaults(defaults: &Vec<(String, String)>, current: Vec<(String, String)>) -> (r: Vec<
    (String, String),
>)
    ensures
        header_views(r@) == missing_defaults(header_views(defaults@), header_views(current@))
            + header_views(current@),
{
    let ghost dv = header_views(defaults@);
    let ghost cv = header_views(current@);
    let mut out: Vec<(String, String)> = Vec::new();
    let mut i: usize = 0;
    while i < defaults.len()
        invariant
            i <= defaults.len(),
            dv == header_views(defaults@),
            cv == header_views(current@),
            header_views(out@) == missing_defaults(dv.take(i as int), cv),
        decreases defaults.len() - i,
    {
        assert(dv.take(i + 1).drop_last() =~= dv.take(i as int));
        assert(dv.take(i + 1).last() == dv[i as int]);
        if !some_name_contains_exec(&current, &defaults[i].0) {
            let ghost before = header_views(out@);
            out.push((defaults[i].0.clone(), defaults[i].1.clone()));
            assert(header_views(out@) =~= before.push(dv[i as int]));
        }
        i = i + 1;
    }
    assert(dv.take(i as int) =~= dv);
    let ghost front = header_views(out@);
    let mut j: usize = 0;
    while j < current.len()
        invariant
            j <= current.len(),
            cv == header_views(current@),
            header_views(out@) == front + cv.take(j as int),
        decreases current.len() - j,
    {
        let ghost before = header_views(out@);
        out.push((current[j].0.clone(), current[j].1.clone()));
        assert(header_views(out@) =~= before.push(cv[j as int]));
        assert(cv.take(j + 1) =~= cv.take(j as int).push(cv[j as int]));
        j = j + 1;
    }
    assert(cv.take(j as int) =~= cv);
    out
}

/// The default headers (user agent, accepted types and encodings) that none of the
/// given header names contains, followed by the given headers.
pub fn add_default_headers(curr_headers: Vec<(String, String)>) -> (r: Vec<(String, String)>)
    ensures
        header_views(r@) == missing_defaults(default_headers(), header_views(curr_headers@))
            + header_views(curr_headers@),
{
    let mut defaults: Vec<(String, String)> = Vec::new();
    defaults.push(
        string_pair(
            "User-Agent",
            "Mozilla/5.0 (Macintosh; Intel Mac OS X 12) AppleWebKit/601.3.9 (KHTML, like Gecko) Version/9.0.2 Firefox/99.0",
        ),
    );
    defaults.push(string_pair("Accept", "*/*"));
    defaults.push(string_pair("Accept-Encoding", "gzip, deflate"));
    assert(header_views(defaults@) =~= default_headers());
    with_missing_defaults(&defaults, curr_headers)
}

/// The headers browsers usually send that none of the given header names contains,
/// followed by the given headers.
pub fn mimic_browser_headers(curr_headers: Vec<(String, String)>) -> (r: Vec<(String, String)>)
    ensures
        header_views(r@) == missing_defaults(browser_headers(), header_views(curr_headers@))
            + header_views(curr_headers@),
{
    let mut defaults: Vec<(String, String)> = Vec::new();
    defaults.push(
        string_pair(
            "User-Agent",
            "Mozilla/5.0 (Macintosh; Intel Mac OS X 12) AppleWebKit/601.3.9 (KHTML, like Gecko) Version/9.0.2 Firefox/99.0",
        ),
    );
    defaults.push(string_pair("Accept", "*/*"));
    defaults.push(string_pair("Accept-Language", "en-US;q=0.7,en;q=0.3"));
    defaults.push(string_pair("Accept-Encoding", "gzip, deflate"));
    defaults.push(string_pair("Dnt", "1"));
    defaults.push(string_pair("Upgrade-Insecure-Requests", "1"));
    defaults.push(string_pair("Sec-Fetch-Dest", "document"));
    defaults.push(string_pair("Sec-Fetch-Mode", "navigate"));
    defaults.push(string_pair("Sec-Fetch-Site", "same-site"));
    assert(header_views(defaults@) =~= browser_headers());
    with_missing_defaults(&defaults, curr_headers)
}

/// The pieces after the second, each after a `:` (what `split(':')` cut away).
pub open spec fn colon_tail(parts: Seq<Seq<char>>) -> Seq<char>
    decreases parts.len(),
{
    if parts.len() == 0 {
        Seq::empty()
    } else {
        colon_tail(parts.drop_last()) + seq![':'] + parts.last()
    }
}

/// The name of a `name: value` header line: what precedes the first `:`.
pub open spec fn header_key(line: Seq<char>) -> Seq<char> {
    split(line, seq![':'])[0]
}

/// The value of a `name: value` header line: the trimmed text between the first and the
/// second `:`, then the rest of the line as it is.
pub open spec fn header_value(line: Seq<char>) -> Seq<char> {
    let parts = split(line, seq![':']);
    trim(parts[1]) + colon_tail(parts.skip(2))
}

/// The name and value of a header line that has a `:`.
fn header_parts(line: &[char]) -> (r: (Vec<char>, Vec<char>))
    requires
        contains(line@, seq![':']),
    ensures
        r.0@ == header_key(line@),
        r.1@ == header_value(line@),
{
    let colon: [char; 1] = [':'];
    assert(colon@ == seq![':']);
    let parts = split_exec(line, &colon);
    let ghost pv = parts@.map_values(|v: Vec<char>| v@);
    proof {
        lemma_split_at_least_two(line@, seq![':']);
    }
    let key = crate::text::slice_to_vec(&parts[0], 0, parts[0].len());
    assert(key@ =~= pv[0]);
    let mut value = trim_exec(&parts[1]);
    let mut k: usize = 2;
    while k < parts.len()
        invariant
            2 <= k <= parts.len(),
            pv == parts@.map_values(|v: Vec<char>| v@),
            pv.len() >= 2,
            value@ == trim(pv[1]) + colon_tail(pv.subrange(2, k as int)),
        decreases parts.len() - k,
    {
        assert(pv.subrange(2, k + 1).drop_last() =~= pv.subrange(2, k as int));
        value.push(':');
        let mut i: usize = 0;
        let ghost start = value@;
        while i < parts[k].len()
            invariant
                i <= parts[k as int]@.len(),
                k < parts.len(),
                value@ == start + parts[k as int]@.take(i as int),
            decreases parts[k as int]@.len() - i,
        {
            value.push(parts[k][i]);
            assert(parts[k as int]@.take(i + 1) =~= parts[k as int]@.take(i as int).push(
                parts[k as int]@[i as int],
            ));
            i = i + 1;
        }
        assert(parts[k as int]@.take(i as int) =~= pv[k as int]);
        k = k + 1;
    }
    assert(pv.subrange(2, k as int) =~= pv.skip(2));
    (key, value)
}

/// Why a `name: value` header could not be read.
#[derive(Clone, Copy, Debug, PartialEq, Eq, Structural)]
pub enum HeaderError {
    /// The header has no `:`.
    MissingValue,
}

/// A `name: value` header given on the command line.
pub fn parse_header(header: &str) -> (r: Result<(String, String), HeaderError>)
    ensures
        contains(header@, seq![':']) <==> r is Ok,
        r matches Ok(h) ==> h.0@ == header_key(header@) && h.1@ == header_value(header@),
{
    let chars = chars_of(header);
    let colon: [char; 1] = [':'];
    assert(colon@ == seq![':']);
    if !contains_exec(&chars, &colon) {
        return Err(HeaderError::MissingValue);
    }
    let (k, v) = header_parts(&chars);
    Ok((string_from_chars(&k), string_from_chars(&v)))
}

/// The index of the first header named `key`, if any.
pub open spec fn first_named(hs: Seq<(Seq<char>, Seq<char>)>, key: Seq<char>, i: int) -> bool {
    0 <= i < hs.len() && hs[i].0 == key && forall|j: int| 0 <= j < i ==> (#[trigger] hs[j]).0 != key
}

/// The headers with `key` set to `value`: the first header of that name gets the value,
/// or the header is added at the end (headers given twice keep one place, the last value).
pub open spec fn header_set(hs: Seq<(Seq<char>, Seq<char>)>, key: Seq<char>, value: Seq<char>) -> Seq<
    (Seq<char>, Seq<char>),
> {
    if has_header(hs, key) {
        hs.update(choose|i: int| first_named(hs, key, i), (key, value))
    } else {
        hs.push((key, value))
    }
}

/// Sets a header: the value of the first header of that name is replaced, or the
/// header is added.
pub fn set_header_value(hs: &mut Vec<(String, String)>, key: String, value: String)
    ensures
        header_views(final(hs)@) == header_set(header_views(old(hs)@), key@, value@),
{
    let ghost hv = header_views(hs@);
    let mut i: usize = 0;
    while i < hs.len()
        invariant
            i <= hs.len(),
            hv == header_views(hs@),
            hs@ == old(hs)@,
            forall|j: int| 0 <= j < i ==> (#[trigger] hv[j]).0 != key@,
        decreases hs.len() - i,
    {
        if crate::text::str_eq(hs[i].0.as_str(), key.as_str()) {
            assert(first_named(hv, key@, i as int));
            assert(has_header(hv, key@));
            let ghost c = choose|x: int| first_named(hv, key@, x);
            assert(c == i) by {
                if c < i {
                    assert(hv[c].0 != key@);
                } else if c > i {
                    assert(hv[i as int].0 != key@);
                }
            }
            hs.set(i, (key, value));
            assert(header_views(hs@) =~= hv.update(i as int, (key@, value@)));
            return;
        }
        i = i + 1;
    }
    assert(!has_header(hv, key@));
    let ghost k = key@;
    let ghost v = value@;
    hs.push((key, value));
    assert(header_views(hs@) =~= hv.push((k, v)));
}

/// Why a raw request could not be read.
#[derive(Clone, Copy, Debug, PartialEq, Eq, Structural)]
pub enum RequestFileError {
    /// There is no first line.
    NoFirstLine,
    /// The first line has no path after the method.
    NoPath,
    /// The first line has no HTTP version after the path.
    NoHttpVersion,
    /// A header line has no `:`.
    NoHeaderValue,
    /// The port after the host is not a number that fits 16 bits.
    InvalidPort,
}

/// The line separator given on the command line, where a backslash followed by `r`
/// or `n` stands for a carriage return or a line feed.
pub open spec fn separator_of(split_by: Seq<char>) -> Seq<char> {
    crate::text::replace(
        crate::text::replace(split_by, seq!['\\', 'r'], seq!['\r']),
        seq!['\\', 'n'],
        seq!['\n'],
    )
}

/// The lines of a raw request: as `str::lines` splits them, or split by the given separator.
pub open spec fn request_lines(request: Seq<char>, split_by: Option<Seq<char>>) -> Seq<Seq<char>> {
    match split_by {
        None => crate::text::lines(request),
        Some(sep) => split(request, separator_of(sep)),
    }
}

/// The index of the first empty line at or after `i`, or the number of lines.
pub open spec fn headers_end(ls: Seq<Seq<char>>, i: int) -> int
    decreases ls.len() - i,
{
    if i < 0 || i >= ls.len() {
        ls.len() as int
    } else if ls[i].len() == 0 {
        i
    } else {
        headers_end(ls, i + 1)
    }
}

/// The end of the headers lies between the start of the search and the end of the lines.
pub proof fn lemma_headers_end_bounds(ls: Seq<Seq<char>>, i: int)
    requires
        0 <= i <= ls.len(),
    ensures
        i <= headers_end(ls, i) <= ls.len(),
    decreases ls.len() - i,
{
    if i < ls.len() && ls[i].len() != 0 {
        lemma_headers_end_bounds(ls, i + 1);
    }
}

/// What the header lines of a raw request have given so far.
pub struct HeaderScan {
    pub headers: Seq<(Seq<char>, Seq<char>)>,
    pub data_type: Option<crate::network::utils::DataType>,
    pub host: Seq<char>,
}

/// One header line read: `Content-Type` tells the data type, `Host` the host (and is
/// left out under HTTP/2), `Content-Length` is left out; the others are kept.
pub open spec fn scan_line(st: HeaderScan, line: Seq<char>, http2: bool) -> HeaderScan {
    let key = header_key(line);
    let value = header_value(line);
    let lk = crate::text::lowercase(key);
    if lk == "content-type"@ {
        HeaderScan {
            headers: st.headers.push((key, value)),
            data_type: if contains(value, "json"@) {
                Some(crate::network::utils::DataType::Json)
            } else if contains(value, "urlencoded"@) {
                Some(crate::network::utils::DataType::Urlencoded)
            } else {
                st.data_type
            },
            host: st.host,
        }
    } else if lk == "host"@ {
        HeaderScan {
            headers: if http2 {
                st.headers
            } else {
                st.headers.push((key, value))
            },
            data_type: st.data_type,
            host: value,
        }
    } else if lk == "content-length"@ {
        st
    } else {
        HeaderScan { headers: st.headers.push((key, value)), data_type: st.data_type, host: st.host }
    }
}

/// The header lines read in order.
pub open spec fn scan_lines(ls: Seq<Seq<char>>, http2: bool) -> HeaderScan
    decreases ls.len(),
{
    if ls.len() == 0 {
        HeaderScan { headers: Seq::empty(), data_type: None, host: Seq::empty() }
    } else {
        scan_line(scan_lines(ls.drop_last(), http2), ls.last(), http2)
    }
}

/// The non-empty parts, each after a `\r\n`.
pub open spec fn crlf_tail(parts: Seq<Seq<char>>) -> Seq<char>
    decreases parts.len(),
{
    if parts.len() == 0 {
        Seq::empty()
    } else if parts.last().len() == 0 {
        crlf_tail(parts.drop_last())
    } else {
        crlf_tail(parts.drop_last()) + seq!['\r', '\n'] + parts.last()
    }
}

/// The body: the line after the empty line that ends the headers, then the later
/// non-empty lines joined by `\r\n`; empty when nothing follows the headers.
pub open spec fn body_of(ls: Seq<Seq<char>>, end: int) -> Seq<char> {
    if end + 1 < ls.len() {
        ls[end + 1] + crlf_tail(ls.subrange(end + 2, ls.len() as int))
    } else {
        Seq::empty()
    }
}

/// The host and port: a given port wins over one in the `Host` header (whose host part
/// is kept); without either, 80 for `http` and 443 otherwise. `None` where the port in
/// the header is not a number.
pub open spec fn host_and_port(host: Seq<char>, scheme: Seq<char>, port: Option<u16>) -> Option<
    (Seq<char>, u16),
> {
    match port {
        Some(p) => Some((split(host, seq![':'])[0], p)),
        None => if contains(host, seq![':']) {
            let parts = split(host, seq![':']);
            match crate::text::parse_u16(parts[1]) {
                Some(p) => Some((parts[0], p)),
                None => None,
            }
        } else {
            Some((host, if scheme == "http"@ { 80u16 } else { 443u16 }))
        },
    }
}

/// What a raw request file gives: the method, the url, the headers, the body, the data
/// type its `Content-Type` tells, and the HTTP version of its first line.
pub open spec fn parsed_request(
    request: Seq<char>,
    scheme: Seq<char>,
    port: Option<u16>,
    split_by: Option<Seq<char>>,
) -> Result<
    (
        Seq<char>,
        Seq<char>,
        Seq<(Seq<char>, Seq<char>)>,
        Seq<char>,
        Option<crate::network::utils::DataType>,
        crate::network::response::HttpVersion,
    ),
    RequestFileError,
> {
    let ls = request_lines(request, split_by);
    if ls.len() == 0 {
        Err(RequestFileError::NoFirstLine)
    } else {
        let first = split(ls[0], seq![' ']);
        if first.len() < 2 {
            Err(RequestFileError::NoPath)
        } else if first.len() < 3 {
            Err(RequestFileError::NoHttpVersion)
        } else {
            let http2 = contains(first[2], "HTTP/2"@);
            let end = headers_end(ls, 1);
            let header_lines = ls.subrange(1, end);
            if exists|k: int|
                0 <= k < header_lines.len() && !contains(#[trigger] header_lines[k], seq![':']) {
                Err(RequestFileError::NoHeaderValue)
            } else {
                let st = scan_lines(header_lines, http2);
                match host_and_port(st.host, scheme, port) {
                    None => Err(RequestFileError::InvalidPort),
                    Some(hp) => Ok(
                        (
                            first[0],
                            scheme + "://"@ + hp.0 + ":"@ + crate::text::decimal(hp.1 as nat)
                                + first[1],
                            st.headers,
                            body_of(ls, end),
                            st.data_type,
                            if http2 {
                                crate::network::response::HttpVersion::Http2
                            } else {
                                crate::network::response::HttpVersion::Http11
                            },
                        ),
                    ),
                }
            }
        }
    }
}

/// A header line the request keeps: any but `Content-Length`, and `Host` too unless
/// the request is HTTP/2.
pub open spec fn kept_header_line(line: Seq<char>, http2: bool) -> bool {
    let lk = crate::text::lowercase(header_key(line));
    lk != "content-length"@ && !(http2 && lk == "host"@)
}

/// The name and value of a header line.
pub open spec fn header_pair(line: Seq<char>) -> (Seq<char>, Seq<char>) {
    (header_key(line), header_value(line))
}

/// The value of the last `Host` line (in any case), or nothing without one.
pub open spec fn last_host(ls: Seq<Seq<char>>) -> Seq<char>
    decreases ls.len(),
{
    if ls.len() == 0 {
        Seq::empty()
    } else if crate::text::lowercase(header_key(ls.last())) == "host"@ {
        header_value(ls.last())
    } else {
        last_host(ls.drop_last())
    }
}

/// A `Content-Type` line (the name in any case).
pub open spec fn is_content_type_line(line: Seq<char>) -> bool {
    crate::text::lowercase(header_key(line)) == "content-type"@
}

/// The data type of a raw request follows its `Content-Type` lines: JSON only where
/// one of them mentions `json`, urlencoded only where one mentions `urlencoded` and not
/// `json`, none where no such line mentions either; and the last `Content-Type` line
/// decides where it mentions one of them.
pub proof fn lemma_scan_data_type(ls: Seq<Seq<char>>, http2: bool)
    ensures
        scan_lines(ls, http2).data_type is Some ==> scan_lines(ls, http2).data_type
            == Some(crate::network::utils::DataType::Json) || scan_lines(ls, http2).data_type
            == Some(crate::network::utils::DataType::Urlencoded),
        scan_lines(ls, http2).data_type == Some(crate::network::utils::DataType::Json) ==> exists|
            i: int,
        |
            0 <= i < ls.len() && is_content_type_line(#[trigger] ls[i]) && contains(
                header_value(ls[i]),
                "json"@,
            ),
        scan_lines(ls, http2).data_type == Some(crate::network::utils::DataType::Urlencoded)
            ==> exists|i: int|
            0 <= i < ls.len() && is_content_type_line(#[trigger] ls[i]) && contains(
                header_value(ls[i]),
                "urlencoded"@,
            ) && !contains(header_value(ls[i]), "json"@),
        (forall|i: int|
            0 <= i < ls.len() && is_content_type_line(#[trigger] ls[i]) ==> !contains(
                header_value(ls[i]),
                "json"@,
            ) && !contains(header_value(ls[i]), "urlencoded"@)) ==> scan_lines(ls, http2).data_type
            is None,
        ls.len() > 0 && is_content_type_line(ls.last()) && contains(header_value(ls.last()), "json"@)
            ==> scan_lines(ls, http2).data_type == Some(crate::network::utils::DataType::Json),
        ls.len() > 0 && is_content_type_line(ls.last()) && contains(
            header_value(ls.last()),
            "urlencoded"@,
        ) && !contains(header_value(ls.last()), "json"@) ==> scan_lines(ls, http2).data_type == Some(
            crate::network::utils::DataType::Urlencoded,
        ),
    decreases ls.len(),
{
    reveal_strlit("content-type");
    reveal_strlit("content-length");
    reveal_strlit("host");
    assert("content-type"@ != "host"@ && "content-type"@ != "content-length"@) by {
        assert("content-type"@[0] != "host"@[0]);
        assert("content-type"@[8] != "content-length"@[8]);
    }
    if ls.len() > 0 {
        let d = ls.drop_last();
        lemma_scan_data_type(d, http2);
        let st = scan_lines(d, http2);
        let line = ls.last();
        assert(scan_lines(ls, http2) == scan_line(st, line, http2));
        assert(ls[ls.len() - 1] == line);
        assert forall|i: int| 0 <= i < d.len() implies #[trigger] d[i] == ls[i] by {}
        if !is_content_type_line(line) {
            assert(scan_lines(ls, http2).data_type == st.data_type);
        }
        if (forall|i: int|
            0 <= i < ls.len() && is_content_type_line(#[trigger] ls[i]) ==> !contains(
                header_value(ls[i]),
                "json"@,
            ) && !contains(header_value(ls[i]), "urlencoded"@)) {
            assert forall|i: int|
                0 <= i < d.len() && is_content_type_line(#[trigger] d[i]) implies !contains(
                header_value(d[i]),
                "json"@,
            ) && !contains(header_value(d[i]), "urlencoded"@) by {
                assert(d[i] == ls[i]);
            }
        }
        if scan_lines(ls, http2).data_type == Some(crate::network::utils::DataType::Json) {
            if st.data_type == Some(crate::network::utils::DataType::Json) && !(is_content_type_line(
                line,
            ) && contains(header_value(line), "json"@)) {
                let i = choose|i: int|
                    0 <= i < d.len() && is_content_type_line(#[trigger] d[i]) && contains(
                        header_value(d[i]),
                        "json"@,
                    );
                assert(ls[i] == d[i]);
            }
        }
        if scan_lines(ls, http2).data_type == Some(crate::network::utils::DataType::Urlencoded) {
            if st.data_type == Some(crate::network::utils::DataType::Urlencoded) && !(
            is_content_type_line(line) && contains(header_value(line), "urlencoded"@) && !contains(
                header_value(line),
                "json"@,
            )) {
                let i = choose|i: int|
                    0 <= i < d.len() && is_content_type_line(#[trigger] d[i]) && contains(
                        header_value(d[i]),
                        "urlencoded"@,
                    ) && !contains(header_value(d[i]), "json"@);
                assert(ls[i] == d[i]);
            }
        }
    }
}

/// Reading header lines keeps, in order, the name and value of each line that is kept,
/// and remembers the value of the last `Host` line.
proof fn lemma_scan_lines(ls: Seq<Seq<char>>, http2: bool)
    ensures
        scan_lines(ls, http2).headers == ls.filter(
            |l: Seq<char>| kept_header_line(l, http2),
        ).map_values(|l: Seq<char>| header_pair(l)),
        scan_lines(ls, http2).host == last_host(ls),
    decreases ls.len(),
{
    reveal(Seq::filter);
    if ls.len() == 0 {
        assert(ls.filter(|l: Seq<char>| kept_header_line(l, http2)) =~= Seq::<Seq<char>>::empty());
        assert(ls.filter(|l: Seq<char>| kept_header_line(l, http2)).map_values(
            |l: Seq<char>| header_pair(l),
        ) =~= Seq::<(Seq<char>, Seq<char>)>::empty());
    } else {
        let d = ls.drop_last();
        lemma_scan_lines(d, http2);
        let st = scan_lines(d, http2);
        let line = ls.last();
        assert(scan_lines(ls, http2) == scan_line(st, line, http2));
        let f = d.filter(|l: Seq<char>| kept_header_line(l, http2));
        let lk = crate::text::lowercase(header_key(line));
        reveal_strlit("content-type");
        reveal_strlit("content-length");
        reveal_strlit("host");
        assert("content-type"@ != "host"@ && "content-type"@ != "content-length"@ && "host"@
            != "content-length"@) by {
            assert("content-type"@[0] != "host"@[0]);
            assert("content-length"@[0] != "host"@[0]);
            assert("content-type"@[8] != "content-length"@[8]);
        }
        assert(scan_line(st, line, http2).host == if lk == "host"@ {
            header_value(line)
        } else {
            st.host
        });
        assert(scan_line(st, line, http2).headers == if kept_header_line(line, http2) {
            st.headers.push(header_pair(line))
        } else {
            st.headers
        });
        if kept_header_line(line, http2) {
            assert(ls.filter(|l: Seq<char>| kept_header_line(l, http2)) == f.push(line));
            assert(f.push(line).map_values(|l: Seq<char>| header_pair(l)) =~= f.map_values(
                |l: Seq<char>| header_pair(l),
            ).push(header_pair(line)));
        } else {
            assert(ls.filter(|l: Seq<char>| kept_header_line(l, http2)) == f);
        }
        if lk == "host"@ {
            assert(last_host(ls) == header_value(line));
        } else {
            assert(last_host(ls) == last_host(d));
        }
    }
}

/// What a raw request file gives, stated directly: it is refused exactly when it has
/// no line, its first line has fewer than three space-separated fields, a header line
/// (up to the first empty line) has no `:`, or no port is given and the port after the
/// last `Host` value's `:` is not a number. Otherwise its headers are the header lines
/// in file order as name and value, without `Content-Length` (and without `Host` under
/// HTTP/2), with no header added; its body is the line after the empty line, followed
/// by each later non-empty line after `\r\n`; and without a given port or a port in the
/// `Host` value, its url is the scheme, the host, 80 for `http` or 443 otherwise, and
/// the path of the first line.
pub proof fn lemma_parsed_request(
    request: Seq<char>,
    scheme: Seq<char>,
    port: Option<u16>,
    split_by: Option<Seq<char>>,
)
    ensures
        ({
            let ls = request_lines(request, split_by);
            let first = split(ls[0], seq![' ']);
            let end = headers_end(ls, 1);
            let hl = ls.subrange(1, end);
            let http2 = contains(first[2], "HTTP/2"@);
            let host = last_host(hl);
            let r = parsed_request(request, scheme, port, split_by);
            &&& r is Err <==> (ls.len() == 0 || first.len() < 3 || (exists|k: int|
                0 <= k < hl.len() && !contains(#[trigger] hl[k], seq![':'])) || (port is None
                && contains(host, seq![':']) && crate::text::parse_u16(split(host, seq![':'])[1]) is None))
            &&& r matches Ok(v) ==> v.2 == hl.filter(|l: Seq<char>| kept_header_line(l, http2)).map_values(
                |l: Seq<char>| header_pair(l),
            ) && v.3 == body_of(ls, end)
            &&& r matches Ok(v) ==> (v.4 == Some(crate::network::utils::DataType::Json) ==> exists|
                i: int,
            |
                0 <= i < hl.len() && is_content_type_line(#[trigger] hl[i]) && contains(
                    header_value(hl[i]),
                    "json"@,
                ))
            &&& r matches Ok(v) ==> (v.4 == Some(crate::network::utils::DataType::Urlencoded)
                ==> exists|i: int|
                0 <= i < hl.len() && is_content_type_line(#[trigger] hl[i]) && contains(
                    header_value(hl[i]),
                    "urlencoded"@,
                ) && !contains(header_value(hl[i]), "json"@))
            &&& r matches Ok(v) ==> (v.4 is Some ==> v.4 == Some(crate::network::utils::DataType::Json)
                || v.4 == Some(crate::network::utils::DataType::Urlencoded))
            &&& port is None && !contains(host, seq![':']) ==> (r matches Ok(v) ==> v.1 == scheme
                + "://"@ + host + ":"@ + crate::text::decimal(
                if scheme == "http"@ {
                    80nat
                } else {
                    443nat
                },
            ) + first[1])
        }),
{
    let ls = request_lines(request, split_by);
    if ls.len() > 0 {
        let first = split(ls[0], seq![' ']);
        if first.len() >= 3 {
            let http2 = contains(first[2], "HTTP/2"@);
            let end = headers_end(ls, 1);
            lemma_headers_end_bounds(ls, 1);
            let hl = ls.subrange(1, end);
            lemma_scan_lines(hl, http2);
            lemma_scan_data_type(hl, http2);
        }
    }
}

/// The separator with its escapes turned into the characters they stand for.
fn separator_exec(split_by: &str) -> (r: Vec<char>)
    ensures
        r@ == separator_of(split_by@),
{
    let esc_r: [char; 2] = ['\\', 'r'];
    let cr: [char; 1] = ['\r'];
    let esc_n: [char; 2] = ['\\', 'n'];
    let lf: [char; 1] = ['\n'];
    assert(esc_r@ == seq!['\\', 'r']);
    assert(cr@ == seq!['\r']);
    assert(esc_n@ == seq!['\\', 'n']);
    assert(lf@ == seq!['\n']);
    let once = crate::text::replace_exec(&chars_of(split_by), &esc_r, &cr);
    crate::text::replace_exec(&once, &esc_n, &lf)
}

/// The header lines read in order, from `ls[1]` up to the first empty line.
fn scan_header_lines(ls: &Vec<Vec<char>>, http2: bool) -> (r: Result<
    (usize, Vec<(String, String)>, Option<crate::network::utils::DataType>, Vec<char>),
    RequestFileError,
>)
    requires
        ls@.len() >= 1,
    ensures
        ({
            let lv = ls@.map_values(|v: Vec<char>| v@);
            let end = headers_end(lv, 1);
            let header_lines = lv.subrange(1, end);
            let bad = exists|k: int|
                0 <= k < header_lines.len() && !contains(#[trigger] header_lines[k], seq![':']);
            let st = scan_lines(header_lines, http2);
            &&& r is Err <==> bad
            &&& r matches Err(e) ==> e == RequestFileError::NoHeaderValue
            &&& r matches Ok(t) ==> t.0 == end && t.0 <= ls@.len() && header_views(t.1@) == st.headers && t.2
                == st.data_type && t.3@ == st.host
        }),
{
    let ghost lv = ls@.map_values(|v: Vec<char>| v@);
    let colon: [char; 1] = [':'];
    assert(colon@ == seq![':']);
    let mut headers: Vec<(String, String)> = Vec::new();
    let mut data_type: Option<crate::network::utils::DataType> = None;
    let mut host: Vec<char> = Vec::new();
    let mut i: usize = 1;
    while i < ls.len() && ls[i].len() > 0
        invariant
            1 <= i <= ls@.len(),
            lv == ls@.map_values(|v: Vec<char>| v@),
            colon@ == seq![':'],
            headers_end(lv, 1) == headers_end(lv, i as int),
            forall|k: int| 1 <= k < i ==> contains(#[trigger] lv[k], seq![':']),
            header_views(headers@) == scan_lines(lv.subrange(1, i as int), http2).headers,
            data_type == scan_lines(lv.subrange(1, i as int), http2).data_type,
            host@ == scan_lines(lv.subrange(1, i as int), http2).host,
        decreases ls@.len() - i,
    {
        let ghost prev = lv.subrange(1, i as int);
        let ghost next = lv.subrange(1, i + 1);
        assert(next.drop_last() =~= prev);
        assert(next.last() == lv[i as int]);
        let line = &ls[i];
        assert(lv[i as int] == ls@[i as int]@);
        proof {
            lemma_headers_end_bounds(lv, i + 1);
        }
        if !contains_exec(line, &colon) {
            assert(headers_end(lv, i as int) > i);
            assert(lv.subrange(1, headers_end(lv, 1))[i - 1] == lv[i as int]);
            return Err(RequestFileError::NoHeaderValue);
        }
        let (key, value) = header_parts(line);
        let key_s = string_from_chars(&key);
        let value_s = string_from_chars(&value);
        let lk = crate::text::to_lowercase(key_s.as_str());
        let ghost hv = header_views(headers@);
        if crate::text::str_eq(lk.as_str(), "content-type") {
            if contains_exec(&value, &chars_of("json")) {
                data_type = Some(crate::network::utils::DataType::Json);
            } else if contains_exec(&value, &chars_of("urlencoded")) {
                data_type = Some(crate::network::utils::DataType::Urlencoded);
            }
            headers.push((key_s, value_s));
            assert(header_views(headers@) =~= hv.push((key@, value@)));
        } else if crate::text::str_eq(lk.as_str(), "host") {
            host = crate::text::slice_to_vec(&value, 0, value.len());
            if !http2 {
                headers.push((key_s, value_s));
                assert(header_views(headers@) =~= hv.push((key@, value@)));
            }
        } else if !crate::text::str_eq(lk.as_str(), "content-length") {
            headers.push((key_s, value_s));
            assert(header_views(headers@) =~= hv.push((key@, value@)));
        }
        i = i + 1;
    }
    assert(headers_end(lv, 1) == i) by {
        if i < ls.len() {
            assert(lv[i as int] == ls@[i as int]@);
        }
    }
    Ok((i, headers, data_type, host))
}

/// The body after the headers that end at `end`.
fn body_exec(ls: &Vec<Vec<char>>, end: usize) -> (r: Vec<char>)
    requires
        end <= ls@.len(),
    ensures
        r@ == body_of(ls@.map_values(|v: Vec<char>| v@), end as int),
{
    let ghost lv = ls@.map_values(|v: Vec<char>| v@);
    if end >= ls.len() || end + 1 >= ls.len() {
        return Vec::new();
    }
    let mut body = crate::text::slice_to_vec(&ls[end + 1], 0, ls[end + 1].len());
    let mut k: usize = end + 2;
    while k < ls.len()
        invariant
            end + 2 <= k <= ls@.len(),
            lv == ls@.map_values(|v: Vec<char>| v@),
            body@ == lv[end + 1] + crlf_tail(lv.subrange(end + 2, k as int)),
        decreases ls@.len() - k,
    {
        assert(lv.subrange(end + 2, k + 1).drop_last() =~= lv.subrange(end + 2, k as int));
        assert(lv.subrange(end + 2, k + 1).last() == lv[k as int]);
        if ls[k].len() > 0 {
            let ghost before = body@;
            body.push('\r');
            body.push('\n');
            let mut i: usize = 0;
            while i < ls[k].len()
                invariant
                    k < ls@.len(),
                    i <= ls@[k as int]@.len(),
                    body@ == before + seq!['\r', '\n'] + ls@[k as int]@.take(i as int),
                decreases ls@[k as int]@.len() - i,
            {
                body.push(ls[k][i]);
                assert(ls@[k as int]@.take(i + 1) =~= ls@[k as int]@.take(i as int).push(
                    ls@[k as int]@[i as int],
                ));
                i = i + 1;
            }
            assert(ls@[k as int]@.take(i as int) =~= lv[k as int]);
        }
        k = k + 1;
    }
    body
}

/// The host and port of the request.
fn host_and_port_exec(host: &Vec<char>, scheme: &str, port: Option<u16>) -> (r: Option<(Vec<char>, u16)>)
    ensures
        match host_and_port(host@, scheme@, port) {
            Some(hp) => r matches Some(t) && t.0@ == hp.0 && t.1 == hp.1,
            None => r is None,
        },
{
    let colon: [char; 1] = [':'];
    assert(colon@ == seq![':']);
    match port {
        Some(p) => {
            let parts = split_exec(host, &colon);
            proof {
                crate::text::lemma_split_nonempty(host@, seq![':']);
            }
            Some((crate::text::slice_to_vec(&parts[0], 0, parts[0].len()), p))
        },
        None => {
            if contains_exec(host, &colon) {
                let parts = split_exec(host, &colon);
                proof {
                    lemma_split_at_least_two(host@, seq![':']);
                }
                match crate::text::parse_u16_exec(&parts[1]) {
                    Some(p) => Some((crate::text::slice_to_vec(&parts[0], 0, parts[0].len()), p)),
                    None => None,
                }
            } else if crate::text::str_eq(scheme, "http") {
                Some((crate::text::slice_to_vec(host, 0, host.len()), 80))
            } else {
                Some((crate::text::slice_to_vec(host, 0, host.len()), 443))
            }
        },
    }
}

/// Reads a raw HTTP request: the first line gives the method, the path and the HTTP
/// version; the headers follow up to an empty line, and the body after it. The url is
/// made of the scheme, the host (from the `Host` header) and the port (given, from the
/// `Host` header, or the scheme's default).
pub fn parse_request(request: &str, scheme: &str, port: Option<u16>, split_by: Option<&str>) -> (r:
    Result<
    (
        Vec<String>,
        Vec<String>,
        Vec<(String, String)>,
        String,
        Option<crate::network::utils::DataType>,
        Option<crate::network::response::HttpVersion>,
    ),
    RequestFileError,
>)
    ensures
        ({
            let outcome = parsed_request(
                request@,
                scheme@,
                port,
                match split_by {
                    Some(s) => Some(s@),
                    None => None,
                },
            );
            &&& r is Ok <==> outcome is Ok
            &&& r matches Err(e) ==> outcome == Err::<
                (
                    Seq<char>,
                    Seq<char>,
                    Seq<(Seq<char>, Seq<char>)>,
                    Seq<char>,
                    Option<crate::network::utils::DataType>,
                    crate::network::response::HttpVersion,
                ),
                RequestFileError,
            >(e)
            &&& r matches Ok(t) ==> {
                &&& t.0@.len() == 1
                &&& t.1@.len() == 1
                &&& t.5 is Some
                &&& outcome == Ok::<
                    (
                        Seq<char>,
                        Seq<char>,
                        Seq<(Seq<char>, Seq<char>)>,
                        Seq<char>,
                        Option<crate::network::utils::DataType>,
                        crate::network::response::HttpVersion,
                    ),
                    RequestFileError,
                >((t.0@[0]@, t.1@[0]@, header_views(t.2@), t.3@, t.4, t.5->0))
            }
        }),
{
    let text = chars_of(request);
    let ls = match split_by {
        None => crate::text::lines_exec(&text),
        Some(sep) => split_exec(&text, &separator_exec(sep)),
    };
    let ghost lv = ls@.map_values(|v: Vec<char>| v@);
    if ls.len() == 0 {
        return Err(RequestFileError::NoFirstLine);
    }
    let space: [char; 1] = [' '];
    assert(space@ == seq![' ']);
    let first = split_exec(&ls[0], &space);
    let ghost fv = first@.map_values(|v: Vec<char>| v@);
    if first.len() < 2 {
        return Err(RequestFileError::NoPath);
    }
    if first.len() < 3 {
        return Err(RequestFileError::NoHttpVersion);
    }
    let http2 = contains_exec(&first[2], &chars_of("HTTP/2"));
    let (end, headers, data_type, host) = match scan_header_lines(&ls, http2) {
        Ok(t) => t,
        Err(e) => {
            return Err(e);
        },
    };
    let body = body_exec(&ls, end);
    let (host, port) = match host_and_port_exec(&host, scheme, port) {
        Some(hp) => hp,
        None => {
            return Err(RequestFileError::InvalidPort);
        },
    };
    let mut url = string_from_chars(&chars_of(scheme));
    url.append("://");
    url.append(string_from_chars(&host).as_str());
    url.append(":");
    url.append(string_from_chars(&crate::text::decimal_exec(port as u128)).as_str());
    url.append(string_from_chars(&first[1]).as_str());
    let mut methods: Vec<String> = Vec::new();
    methods.push(string_from_chars(&first[0]));
    let mut urls: Vec<String> = Vec::new();
    urls.push(url);
    let version = if http2 {
        crate::network::response::HttpVersion::Http2
    } else {
        crate::network::response::HttpVersion::Http11
    };
    Ok((methods, urls, headers, string_from_chars(&body), data_type, Some(version)))
}

/// The urls of a file, one per line (lines as `str::lines` splits them).
pub fn url_lines(content: &str) -> (r: Vec<String>)
    ensures
        views(r@) == crate::text::lines(content@),
{
    let ls = crate::text::lines_exec(&chars_of(content));
    let ghost lv = ls@.map_values(|v: Vec<char>| v@);
    let mut out: Vec<String> = Vec::new();
    let mut i: usize = 0;
    while i < ls.len()
        invariant
            i <= ls@.len(),
            lv == ls@.map_values(|v: Vec<char>| v@),
            views(out@) == lv.take(i as int),
        decreases ls@.len() - i,
    {
        let line = string_from_chars(&ls[i]);
        let ghost before = views(out@);
        out.push(line);
        assert(views(out@) =~= before.push(lv[i as int]));
        assert(lv.take(i + 1) =~= lv.take(i as int).push(lv[i as int]));
        i = i + 1;
    }
    assert(lv.take(i as int) =~= lv);
    out
}

/// Why the command line settings are refused.
#[derive(Clone, Copy, Debug, PartialEq, Eq, Structural)]
pub enum ConfigError {
    /// `--data-type` is neither `json` nor `urlencoded`.
    IncorrectDataType,
    /// `--one-worker-per-host` with a single worker and without `--force`.
    PointlessOneWorkerPerHost,
    /// The url at this index does not parse.
    InvalidUrl(usize),
}

/// The urls as `url::Url` writes them once parsed (`https://example.com` becomes
/// `https://example.com/`), or the index of the first one that does not parse.
pub fn normalized_urls(urls: &Vec<String>) -> (r: Result<Vec<String>, ConfigError>)
    ensures
        r is Ok <==> forall|i: int|
            0 <= i < urls.len() ==> crate::network::request::parsed_url(#[trigger] urls@[i]@) is Some,
        r matches Ok(v) ==> v.len() == urls.len() && forall|i: int|
            0 <= i < urls.len() ==> (crate::network::request::parsed_url(#[trigger] urls@[i]@)
                matches Some(p) && v@[i]@ == p.5),
        r matches Err(e) ==> e matches ConfigError::InvalidUrl(i) && i < urls.len()
            && crate::network::request::parsed_url(urls@[i as int]@) is None && forall|j: int|
            0 <= j < i ==> crate::network::request::parsed_url(#[trigger] urls@[j]@) is Some,
{
    let mut out: Vec<String> = Vec::new();
    let mut i: usize = 0;
    while i < urls.len()
        invariant
            i <= urls.len(),
            out.len() == i,
            forall|j: int|
                0 <= j < i ==> (crate::network::request::parsed_url(#[trigger] urls@[j]@)
                    matches Some(p) && out@[j]@ == p.5),
        decreases urls.len() - i,
    {
        match crate::network::request::parse_url(urls[i].as_str()) {
            Ok(p) => {
                out.push(p.5);
            },
            Err(_) => {
                return Err(ConfigError::InvalidUrl(i));
            },
        }
        i = i + 1;
    }
    Ok(out)
}

/// The data type named by `--data-type`.
pub fn data_type_of(value: Option<&str>) -> (r: Result<Option<crate::network::utils::DataType>, ConfigError>)
    ensures
        match value {
            None => r == Ok::<Option<crate::network::utils::DataType>, ConfigError>(None),
            Some(v) => if v@ == "json"@ {
                r == Ok::<Option<crate::network::utils::DataType>, ConfigError>(
                    Some(crate::network::utils::DataType::Json),
                )
            } else if v@ == "urlencoded"@ {
                r == Ok::<Option<crate::network::utils::DataType>, ConfigError>(
                    Some(crate::network::utils::DataType::Urlencoded),
                )
            } else {
                r == Err::<Option<crate::network::utils::DataType>, ConfigError>(
                    ConfigError::IncorrectDataType,
                )
            },
        },
{
    match value {
        None => Ok(None),
        Some(v) => {
            if crate::text::str_eq(v, "json") {
                Ok(Some(crate::network::utils::DataType::Json))
            } else if crate::text::str_eq(v, "urlencoded") {
                Ok(Some(crate::network::utils::DataType::Urlencoded))
            } else {
                Err(ConfigError::IncorrectDataType)
            }
        },
    }
}

/// The HTTP version named by `--http`: `1.1` or `2`; `None` for anything else.
pub fn http_version_of(value: &str) -> (r: Option<crate::network::response::HttpVersion>)
    ensures
        r == if value@ == "1.1"@ {
            Some(crate::network::response::HttpVersion::Http11)
        } else if value@ == "2"@ {
            Some(crate::network::response::HttpVersion::Http2)
        } else {
            None
        },
{
    if crate::text::str_eq(value, "1.1") {
        Some(crate::network::response::HttpVersion::Http11)
    } else if crate::text::str_eq(value, "2") {
        Some(crate::network::response::HttpVersion::Http2)
    } else {
        None
    }
}

/// The data type: the given one, or JSON that only counts for the body when the headers
/// say `Content-Type: application/json` (the name compared regardless of case).
pub fn guessed_data_type(
    data_type: Option<crate::network::utils::DataType>,
    headers: &Vec<(String, String)>,
) -> (r: Option<crate::network::utils::DataType>)
    ensures
        r == match data_type {
            Some(d) => Some(d),
            None => if crate::network::utils::header_value_ci(
                header_views(headers@),
                "content-type"@,
            ) == Some("application/json"@) {
                Some(crate::network::utils::DataType::ProbablyJson)
            } else {
                None
            },
        },
{
    match data_type {
        Some(d) => Some(d),
        None => match headers.get_value_case_insensitive("content-type") {
            Some(v) => if crate::text::str_eq(v.as_str(), "application/json") {
                Some(crate::network::utils::DataType::ProbablyJson)
            } else {
                None
            },
            None => None,
        },
    }
}

/// The parameters checked with fixed values unless others are given.
pub open spec fn default_custom_keys() -> Seq<Seq<char>> {
    seq![
        "admin"@,
        "bot"@,
        "captcha"@,
        "debug"@,
        "disable"@,
        "encryption"@,
        "env"@,
        "show"@,
        "sso"@,
        "test"@,
        "waf"@,
    ]
}

/// The fixed values checked unless others are given.
pub open spec fn default_custom_values() -> Seq<Seq<char>> {
    seq!["1"@, "0"@, "false"@, "off"@, "null"@, "true"@, "yes"@, "no"@]
}

/// Owned strings of the literals.
fn strings_of(items: &[&str]) -> (r: Vec<String>)
    ensures
        views(r@) == items@.map_values(|s: &str| s@),
{
    let mut out: Vec<String> = Vec::new();
    let mut i: usize = 0;
    while i < items.len()
        invariant
            i <= items@.len(),
            views(out@) == items@.map_values(|s: &str| s@).take(i as int),
        decreases items@.len() - i,
    {
        let ghost before = views(out@);
        out.push(string_from_chars(&chars_of(items[i])));
        assert(views(out@) =~= before.push(items@[i as int]@));
        assert(items@.map_values(|s: &str| s@).take(i + 1) =~= items@.map_values(|s: &str| s@).take(
            i as int,
        ).push(items@[i as int]@));
        i = i + 1;
    }
    assert(items@.map_values(|s: &str| s@).take(i as int) =~= items@.map_values(|s: &str| s@));
    out
}

/// `admin`, `bot`, `captcha`, `debug`, `disable`, `encryption`, `env`, `show`, `sso`,
/// `test`, `waf`.
pub fn default_custom_parameter_keys() -> (r: Vec<String>)
    ensures
        views(r@) == default_custom_keys(),
{
    let items: [&str; 11] = [
        "admin",
        "bot",
        "captcha",
        "debug",
        "disable",
        "encryption",
        "env",
        "show",
        "sso",
        "test",
        "waf",
    ];
    let r = strings_of(&items);
    assert(items@.map_values(|s: &str| s@) =~= default_custom_keys());
    r
}

/// `1`, `0`, `false`, `off`, `null`, `true`, `yes`, `no`.
pub fn default_custom_parameter_values() -> (r: Vec<String>)
    ensures
        views(r@) == default_custom_values(),
{
    let items: [&str; 8] = ["1", "0", "false", "off", "null", "true", "yes", "no"];
    let r = strings_of(&items);
    assert(items@.map_values(|s: &str| s@) =~= default_custom_values());
    r
}

/// Each parameter once, in the order given, with all the values.
pub open spec fn custom_parameter_list(keys: Seq<Seq<char>>, values: Seq<Seq<char>>) -> Seq<
    (Seq<char>, Seq<Seq<char>>),
> {
    crate::network::request::distinct(keys).map_values(|k: Seq<char>| (k, values))
}

/// The parameters checked with fixed values hold each given key exactly once, each
/// with all the values, in the order the keys first occur.
pub proof fn lemma_custom_parameter_list(keys: Seq<Seq<char>>, values: Seq<Seq<char>>)
    ensures
        forall|i: int|
            0 <= i < custom_parameter_list(keys, values).len() ==> (#[trigger] custom_parameter_list(
                keys,
                values,
            )[i]).1 == values,
        forall|k: Seq<char>|
            keys.contains(k) <==> #[trigger] crate::network::request::distinct(keys).contains(k),
        crate::network::request::distinct(keys).no_duplicates(),
        custom_parameter_list(keys, values).len() == crate::network::request::distinct(keys).len(),
        forall|i: int|
            0 <= i < custom_parameter_list(keys, values).len() ==> (#[trigger] custom_parameter_list(
                keys,
                values,
            )[i]).0 == crate::network::request::distinct(keys)[i],
    decreases keys.len(),
{
    if keys.len() > 0 {
        let d = keys.drop_last();
        lemma_custom_parameter_list(d, values);
        let w = crate::network::request::distinct(d);
        assert forall|k: Seq<char>|
            keys.contains(k) <==> #[trigger] crate::network::request::distinct(keys).contains(k) by {
            if keys.contains(k) && !d.contains(k) {
                let j = choose|j: int| 0 <= j < keys.len() && keys[j] == k;
                if j < keys.len() - 1 {
                    assert(d[j] == k);
                }
            }
            if d.contains(k) {
                let j = choose|j: int| 0 <= j < d.len() && d[j] == k;
                assert(keys[j] == k);
            }
            if !w.contains(keys.last()) {
                if w.contains(k) {
                    let j = choose|j: int| 0 <= j < w.len() && w[j] == k;
                    assert(w.push(keys.last())[j] == k);
                }
                if k == keys.last() {
                    assert(w.push(keys.last())[w.len() as int] == k);
                }
                if w.push(keys.last()).contains(k) && k != keys.last() {
                    let j = choose|j: int| 0 <= j < w.len() + 1 && w.push(keys.last())[j] == k;
                    assert(w[j] == k);
                }
            }
            if k == keys.last() {
                assert(keys[keys.len() - 1] == k);
            }
        }
    }
}

/// The views of the parameters checked with fixed values.
pub open spec fn custom_views(c: Seq<(String, Vec<String>)>) -> Seq<(Seq<char>, Seq<Seq<char>>)> {
    c.map_values(|e: (String, Vec<String>)| (e.0@, views(e.1@)))
}

/// A copy of strings.
pub fn copy_strings(v: &Vec<String>) -> (r: Vec<String>)
    ensures
        views(r@) == views(v@),
{
    let mut out: Vec<String> = Vec::new();
    let mut i: usize = 0;
    while i < v.len()
        invariant
            i <= v@.len(),
            views(out@) == views(v@).take(i as int),
        decreases v@.len() - i,
    {
        let ghost before = views(out@);
        out.push(v[i].clone());
        assert(views(out@) =~= before.push(v@[i as int]@));
        assert(views(v@).take(i + 1) =~= views(v@).take(i as int).push(v@[i as int]@));
        i = i + 1;
    }
    assert(views(v@).take(i as int) =~= views(v@));
    out
}

/// The parameters checked with fixed values: each key once, with every value.
pub fn custom_parameters(keys: &Vec<String>, values: &Vec<String>) -> (r: Vec<(String, Vec<String>)>)
    ensures
        custom_views(r@) == custom_parameter_list(views(keys@), views(values@)),
{
    let ghost kv = views(keys@);
    let mut out: Vec<(String, Vec<String>)> = Vec::new();
    let mut seen: Vec<String> = Vec::new();
    let mut i: usize = 0;
    while i < keys.len()
        invariant
            i <= keys@.len(),
            kv == views(keys@),
            views(seen@) == crate::network::request::distinct(kv.take(i as int)),
            custom_views(out@) == custom_parameter_list(kv.take(i as int), views(values@)),
        decreases keys@.len() - i,
    {
        assert(kv.take(i + 1).drop_last() =~= kv.take(i as int));
        assert(kv.take(i + 1).last() == kv[i as int]);
        if !crate::network::response::contains_string(&seen, &keys[i]) {
            let ghost before = custom_views(out@);
            let ghost seen_before = views(seen@);
            seen.push(keys[i].clone());
            assert(views(seen@) =~= seen_before.push(kv[i as int]));
            out.push((keys[i].clone(), copy_strings(values)));
            assert(custom_views(out@) =~= before.push((kv[i as int], views(values@))));
        }
        i = i + 1;
    }
    assert(kv.take(i as int) =~= kv);
    out
}

/// The verbosity: one less when several urls are checked in parallel.
pub fn effective_verbose(verbose: usize, workers: usize, url_count: usize) -> (r: usize)
    ensures
        r == if verbose > 0 && !(workers == 1 || url_count == 1) {
            (verbose - 1) as usize
        } else {
            verbose
        },
{
    if verbose > 0 && !(workers == 1 || url_count == 1) {
        verbose - 1
    } else {
        verbose
    }
}

/// The proxy: Burp's default address with `--burp-proxy`, the given one, or none.
pub fn proxy_setting(burp_proxy: bool, proxy: Option<&str>) -> (r: String)
    ensures
        burp_proxy ==> r@ == "http://localhost:8080"@,
        !burp_proxy ==> r@ == match proxy {
            Some(p) => p@,
            None => Seq::<char>::empty(),
        },
{
    if burp_proxy {
        string_from_chars(&chars_of("http://localhost:8080"))
    } else {
        match proxy {
            Some(p) => string_from_chars(&chars_of(p)),
            None => String::new(),
        }
    }
}

/// `--one-worker-per-host` needs more than one worker, unless forced.
pub fn check_workers(workers: usize, one_worker_per_host: bool, force: bool) -> (r: Result<(), ConfigError>)
    ensures
        r is Err <==> (workers == 1 && one_worker_per_host && !force),
        r matches Err(e) ==> e == ConfigError::PointlessOneWorkerPerHost,
{
    if workers == 1 && one_worker_per_host && !force {
        Err(ConfigError::PointlessOneWorkerPerHost)
    } else {
        Ok(())
    }
}

/// The lines that describe a run before it starts: the urls, the methods, the number of
/// names to check, and the proxy, the replay proxy and the recursion depth where set;
/// each label colored.
pub open spec fn config_banner_text(
    r: Seq<char>,
    urls: Seq<Seq<char>>,
    methods: Seq<Seq<char>>,
    param_count: nat,
    proxy: Seq<char>,
    replay_proxy: Seq<char>,
    recursion_depth: nat,
) -> bool {
    exists|a: Seq<char>, b: Seq<char>, c: Seq<char>, p: Seq<char>, q: Seq<char>, d: Seq<char>|
        #![trigger crate::utils::painted("urls"@, crate::utils::Color::Green, a), crate::utils::painted("methods"@, crate::utils::Color::Blue, b), crate::utils::painted("wordlist len"@, crate::utils::Color::Cyan, c), crate::utils::painted("proxy"@, crate::utils::Color::Green, p), crate::utils::painted("replay proxy"@, crate::utils::Color::Magenta, q), crate::utils::painted("recursion depth"@, crate::utils::Color::Yellow, d)]
        crate::utils::painted("urls"@, crate::utils::Color::Green, a) && crate::utils::painted(
            "methods"@,
            crate::utils::Color::Blue,
            b,
        ) && crate::utils::painted("wordlist len"@, crate::utils::Color::Cyan, c)
            && crate::utils::painted("proxy"@, crate::utils::Color::Green, p)
            && crate::utils::painted("replay proxy"@, crate::utils::Color::Magenta, q)
            && crate::utils::painted("recursion depth"@, crate::utils::Color::Yellow, d) && r == a
            + ":         "@ + crate::text::join(urls, " "@) + "\n"@ + b + ":      "@
            + crate::text::join(methods, " "@) + "\n"@ + c + ": "@ + crate::text::decimal(
            param_count,
        ) + (if proxy.len() > 0 {
            "\n"@ + p + ":        "@ + proxy
        } else {
            Seq::empty()
        }) + (if replay_proxy.len() > 0 {
            "\n"@ + q + ": "@ + replay_proxy
        } else {
            Seq::empty()
        }) + (if recursion_depth != 0 {
            "\n"@ + d + ": "@ + crate::text::decimal(recursion_depth)
        } else {
            Seq::empty()
        })
}

/// The lines that describe a run before it starts (see `config_banner_text`).
pub fn banner_config(config: &crate::config::structs::Config, param_count: usize) -> (r: String)
    ensures
        config_banner_text(
            r@,
            views(config.urls@),
            views(config.methods@),
            param_count as nat,
            config.proxy@,
            config.replay_proxy@,
            config.recursion_depth as nat,
        ),
{
    let a = crate::utils::paint("urls", crate::utils::Color::Green);
    let b = crate::utils::paint("methods", crate::utils::Color::Blue);
    let c = crate::utils::paint("wordlist len", crate::utils::Color::Cyan);
    let p = crate::utils::paint("proxy", crate::utils::Color::Green);
    let q = crate::utils::paint("replay proxy", crate::utils::Color::Magenta);
    let d = crate::utils::paint("recursion depth", crate::utils::Color::Yellow);
    let urls = crate::text::join_exec(
        &crate::runner::utils::strings_as_chars(config.urls.as_slice()),
        &chars_of(" "),
    );
    let methods = crate::text::join_exec(
        &crate::runner::utils::strings_as_chars(config.methods.as_slice()),
        &chars_of(" "),
    );
    let mut out = a.clone();
    out.append(":         ");
    out.append(string_from_chars(&urls).as_str());
    out.append("\n");
    out.append(b.as_str());
    out.append(":      ");
    out.append(string_from_chars(&methods).as_str());
    out.append("\n");
    out.append(c.as_str());
    out.append(": ");
    out.append(string_from_chars(&crate::text::decimal_exec(param_count as u128)).as_str());
    let ghost base = out@;
    assert(base == a@ + ":         "@ + crate::text::join(views(config.urls@), " "@) + "\n"@ + b@
        + ":      "@ + crate::text::join(views(config.methods@), " "@) + "\n"@ + c@ + ": "@
        + crate::text::decimal(param_count as nat));
    if !config.proxy.as_str().is_empty() {
        out.append("\n");
        out.append(p.as_str());
        out.append(":        ");
        out.append(config.proxy.as_str());
    }
    let ghost with_proxy = out@;
    assert(with_proxy == base + (if config.proxy@.len() > 0 {
        "\n"@ + p@ + ":        "@ + config.proxy@
    } else {
        Seq::empty()
    }));
    if !config.replay_proxy.as_str().is_empty() {
        out.append("\n");
        out.append(q.as_str());
        out.append(": ");
        out.append(config.replay_proxy.as_str());
    }
    let ghost with_replay = out@;
    assert(with_replay == with_proxy + (if config.replay_proxy@.len() > 0 {
        "\n"@ + q@ + ": "@ + config.replay_proxy@
    } else {
        Seq::empty()
    }));
    if config.recursion_depth != 0 {
        out.append("\n");
        out.append(d.as_str());
        out.append(": ");
        out.append(
            string_from_chars(&crate::text::decimal_exec(config.recursion_depth as u128)).as_str(),
        );
    }
    assert(crate::utils::painted("urls"@, crate::utils::Color::Green, a@));
    assert(crate::utils::painted("methods"@, crate::utils::Color::Blue, b@));
    assert(crate::utils::painted("wordlist len"@, crate::utils::Color::Cyan, c@));
    assert(crate::utils::painted("proxy"@, crate::utils::Color::Green, p@));
    assert(crate::utils::painted("replay proxy"@, crate::utils::Color::Magenta, q@));
    assert(crate::utils::painted("recursion depth"@, crate::utils::Color::Yellow, d@));
    assert(out@ == with_replay + (if config.recursion_depth != 0 {
        "\n"@ + d@ + ": "@ + crate::text::decimal(config.recursion_depth as nat)
    } else {
        Seq::empty()
    }));
    out
}

} // verus!
