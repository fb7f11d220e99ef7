//! Request templates and the requests made from them.
use vstd::prelude::*;

use std::time::Duration;

use crate::network::utils::{
    has_header, header_views, percent_encode, percent_encode_str, DataType, Headers,
    InjectionPlace,
};
use crate::text::{
    chars_eq, chars_of, views, contains, contains_exec, decimal, decimal_exec, has_prefix, join,
    join_exec, pair_views, replace, replace_exec, slice_to_vec, sort_pairs, sorted_pairs,
    split, split_exec, starts_with_exec, str_eq, string_from_chars,
};
use crate::utils::{is_random_word, random_line};

verus! {

/// The request data every request of a run is made from.
#[derive(Clone, Debug)]
pub struct RequestDefaults {
    pub method: String,
    pub scheme: String,
    pub path: String,
    pub host: String,
    pub port: u16,
    /// User supplied or default headers.
    pub custom_headers: Vec<(String, String)>,
    /// How long to wait before each request.
    pub delay: Duration,
    /// Parameter template, for example `{k}={v}`.
    pub template: String,
    /// What parameters are joined with, for example `&`.
    pub joiner: String,
    /// Whether the query is percent-encoded.
    pub encode: bool,
    /// Whether the body is JSON.
    pub is_json: bool,
    pub body: String,
    /// Whether parameters with fixed values like `admin=true` are left out.
    pub disable_custom_parameters: bool,
    /// Parameters added to every request (found parameters, in recursive runs).
    pub parameters: Vec<(String, String)>,
    /// Where parameters are inserted.
    pub injection_place: InjectionPlace,
    /// How often a parameter that does not exist is reflected.
    pub amount_of_reflections: usize,
}

/// Why request defaults could not be made.
#[derive(Clone, Copy, Debug, PartialEq, Eq, Structural)]
pub enum RequestError {
    /// The url does not parse.
    InvalidUrl,
    /// The url has no host.
    HostMissing,
    /// The url has no port and its scheme has no default one.
    WrongScheme,
}

/// `Duration` is `Copy`: its clone is the same duration.
pub assume_specification[ <Duration as Clone>::clone ](d: &Duration) -> (r: Duration)
    ensures
        r == *d,
;

/// A zero delay.
#[verifier::external_body]
fn zero_delay() -> Duration {
    Duration::from_millis(0)
}

/// `Default`: a GET request of `https://example.com:443/` with parameters in the query.
impl Default for RequestDefaults {
    fn default() -> (r: Self)
        ensures
            r.method@ == "GET"@,
            r.scheme@ == "https"@,
            r.path@ == "/"@,
            r.host@ == "example.com"@,
            r.port == 443,
            r.custom_headers@.len() == 0,
            r.template@ == "{k}={v}"@,
            r.joiner@ == "&"@,
            !r.is_json,
            !r.encode,
            r.body@.len() == 0,
            !r.disable_custom_parameters,
            r.parameters@.len() == 0,
            r.injection_place == InjectionPlace::Path,
            r.amount_of_reflections == 0,
    {
        RequestDefaults {
            method: String::from_str("GET"),
            scheme: String::from_str("https"),
            path: String::from_str("/"),
            host: String::from_str("example.com"),
            port: 443,
            custom_headers: Vec::new(),
            delay: zero_delay(),
            template: String::from_str("{k}={v}"),
            joiner: String::from_str("&"),
            is_json: false,
            encode: false,
            body: String::new(),
            disable_custom_parameters: false,
            parameters: Vec::new(),
            injection_place: InjectionPlace::Path,
            amount_of_reflections: 0,
        }
    }
}

/// What `url::Url::parse` makes of a url, as plain values: scheme, path, query,
/// host (as `Host` displays it), `port_or_known_default` and the whole serialization
/// (`as_str`); `None` where parsing fails.
pub uninterp spec fn parsed_url(input: Seq<char>) -> Option<
    (Seq<char>, Seq<char>, Option<Seq<char>>, Option<Seq<char>>, Option<u16>, Seq<char>),
>;

/// Parses a url with `url::Url::parse` and takes its parts.
#[verifier::external_body]
pub(crate) fn parse_url(input: &str) -> (r: Result<
    (String, String, Option<String>, Option<String>, Option<u16>, String),
    url::ParseError,
>)
    ensures
        r matches Ok(p) ==> parsed_url(input@) == Some(
            (
                p.0@,
                p.1@,
                crate::network::utils::opt_view(p.2),
                crate::network::utils::opt_view(p.3),
                p.4,
                p.5@,
            ),
        ),
        r is Err ==> parsed_url(input@) is None,
{
    let url = url::Url::parse(input)?;
    Ok(
        (
            url.scheme().to_string(),
            url.path().to_string(),
            url.query().map(|q| q.to_string()),
            url.host().map(|h| h.to_string()),
            url.port_or_known_default(),
            url.as_str().to_string(),
        ),
    )
}

#[verifier::external_type_specification]
#[verifier::external_body]
pub struct ExUrlParseError(url::ParseError);

/// The JSON template.
pub open spec fn json_template() -> Seq<char> {
    "\"{k}\": {v}"@
}

/// The template and joiner the data is written with, whether it is JSON, and its type
/// where parameters go into the path or the body.
pub open spec fn spec_guess_data_format(
    body: Seq<char>,
    injection_place: InjectionPlace,
    data_type: Option<DataType>,
) -> (Seq<char>, Seq<char>, bool, Option<DataType>) {
    match data_type {
        Some(DataType::Json) => (json_template(), ", "@, true, Some(DataType::Json)),
        Some(DataType::Urlencoded) => ("{k}={v}"@, "&"@, false, Some(DataType::Urlencoded)),
        _ => if data_type == Some(DataType::ProbablyJson) && injection_place
            == InjectionPlace::Body {
            (json_template(), ", "@, true, Some(DataType::Json))
        } else {
            match injection_place {
            InjectionPlace::Body => if has_prefix(body, "{"@) {
                (json_template(), ", "@, true, Some(DataType::Json))
            } else {
                ("{k}={v}"@, "&"@, false, Some(DataType::Urlencoded))
            },
            InjectionPlace::HeaderValue => ("{k}={v}"@, "; "@, false, None),
            InjectionPlace::Path => ("{k}={v}"@, "&"@, false, Some(DataType::Urlencoded)),
                InjectionPlace::Headers => (""@, ""@, false, None),
            }
        },
    }
}

/// The path and body with an injection point (`%s`) where parameters go.
pub open spec fn spec_fix_path_and_body(
    path: Seq<char>,
    body: Seq<char>,
    joiner: Seq<char>,
    injection_place: InjectionPlace,
    data_type: DataType,
) -> (Seq<char>, Seq<char>) {
    match injection_place {
        InjectionPlace::Body => if contains(body, "%s"@) {
            (path, body)
        } else if body.len() == 0 {
            if data_type == DataType::Json {
                (path, "{%s}"@)
            } else {
                (path, "%s"@)
            }
        } else if data_type == DataType::Json {
            (path, body.drop_last() + ", %s}"@)
        } else {
            (path, body + joiner + "%s"@)
        },
        InjectionPlace::Path => if contains(path, "%s"@) {
            (path, body)
        } else if contains(path, "?"@) {
            (path + joiner + "%s"@, body)
        } else if joiner == "&"@ {
            (path + "?%s"@, body)
        } else {
            (path + "%s"@, body)
        },
        _ => (path, body),
    }
}

/// The path of a url with its query, if it has one.
pub open spec fn path_with_query(path: Seq<char>, query: Option<Seq<char>>) -> Seq<char> {
    match query {
        Some(q) => path + "?"@ + q,
        None => path,
    }
}

/// Where parameters go: header values when a header value holds `%s`, header names
/// in header discovery, the body for POST, PUT, PATCH and DELETE (the other methods
/// with `--invert`), the query otherwise.
pub open spec fn spec_injection_place(
    method: Seq<char>,
    custom_headers: Seq<(Seq<char>, Seq<char>)>,
    invert: bool,
    headers_discovery: bool,
) -> InjectionPlace {
    if exists|i: int| 0 <= i < custom_headers.len() && contains((#[trigger] custom_headers[i]).1, "%s"@) {
        InjectionPlace::HeaderValue
    } else if headers_discovery {
        InjectionPlace::Headers
    } else if is_body_method(method) != invert {
        InjectionPlace::Body
    } else {
        InjectionPlace::Path
    }
}

/// The methods whose parameters go into the body by default.
pub open spec fn is_body_method(method: Seq<char>) -> bool {
    method == "POST"@ || method == "PUT"@ || method == "PATCH"@ || method == "DELETE"@
}

/// The request defaults made from their parts: `Err` exactly when the url does not
/// parse, has no host, or has no port.
pub open spec fn defaults_outcome(
    url: Seq<char>,
    template: Option<Seq<char>>,
    joiner: Option<Seq<char>>,
    data_type: Option<DataType>,
    injection_place: InjectionPlace,
    body: Seq<char>,
) -> Result<
    (Seq<char>, Seq<char>, Seq<char>, u16, Seq<char>, Seq<char>, bool, Seq<char>),
    RequestError,
> {
    let g = spec_guess_data_format(body, injection_place, data_type);
    let template = match template {
        Some(t) => t,
        None => g.0,
    };
    let joiner = match joiner {
        Some(j) => j,
        None => g.1,
    };
    match parsed_url(url) {
        None => Err(RequestError::InvalidUrl),
        Some((scheme, path, query, host, port, _)) => {
            let full_path = path_with_query(path, query);
            let (path, body) = match g.3 {
                Some(dt) => spec_fix_path_and_body(full_path, body, joiner, injection_place, dt),
                None => (full_path, body),
            };
            match host {
                None => Err(RequestError::HostMissing),
                Some(h) => match port {
                    None => Err(RequestError::WrongScheme),
                    Some(p) => Ok((scheme, path, h, p, template, joiner, g.2, body)),
                },
            }
        },
    }
}

/// The view of an optional string slice.
pub open spec fn opt_str_view(o: Option<&str>) -> Option<Seq<char>> {
    match o {
        Some(s) => Some(s@),
        None => None,
    }
}

impl RequestDefaults {
    /// Request defaults for a method and url; where parameters go follows from the
    /// method, `invert`, `headers_discovery` and the headers (see `spec_injection_place`).
    pub fn new(
        method: &str,
        url: &str,
        custom_headers: Vec<(String, String)>,
        delay: Duration,
        template: Option<&str>,
        joiner: Option<&str>,
        encode: bool,
        data_type: Option<DataType>,
        invert: bool,
        headers_discovery: bool,
        body: &str,
        disable_custom_parameters: bool,
    ) -> (r: Result<Self, RequestError>)
        ensures
            ({
                let place = spec_injection_place(
                    method@,
                    header_views(custom_headers@),
                    invert,
                    headers_discovery,
                );
                let outcome = defaults_outcome(
                    url@,
                    opt_str_view(template),
                    opt_str_view(joiner),
                    data_type,
                    place,
                    body@,
                );
                &&& r is Ok <==> outcome is Ok
                &&& r matches Err(e) ==> outcome == Err::<
                    (Seq<char>, Seq<char>, Seq<char>, u16, Seq<char>, Seq<char>, bool, Seq<char>),
                    RequestError,
                >(e)
                &&& r matches Ok(d) ==> d.injection_place == place && d.wf_from(
                    method@,
                    header_views(custom_headers@),
                    delay,
                    encode,
                    disable_custom_parameters,
                    outcome->Ok_0,
                )
            }),
    {
        let place = injection_place_of(method, &custom_headers, invert, headers_discovery);
        Self::from_parts(
            method,
            url,
            custom_headers,
            delay,
            template,
            joiner,
            encode,
            data_type,
            place,
            body,
            disable_custom_parameters,
        )
    }

    /// Request defaults for a method and url with the settings of a run (see `new`).
    pub fn from_config(config: &crate::config::structs::Config, method: &str, url: &str) -> (r:
        Result<Self, RequestError>)
        ensures
            ({
                let headers = header_views(config.custom_headers@);
                let place = spec_injection_place(
                    method@,
                    headers,
                    config.invert,
                    config.headers_discovery,
                );
                let outcome = defaults_outcome(
                    url@,
                    crate::network::utils::opt_view(config.template),
                    crate::network::utils::opt_view(config.joiner),
                    config.data_type,
                    place,
                    config.body@,
                );
                &&& r is Ok <==> outcome is Ok
                &&& r matches Err(e) ==> outcome == Err::<
                    (Seq<char>, Seq<char>, Seq<char>, u16, Seq<char>, Seq<char>, bool, Seq<char>),
                    RequestError,
                >(e)
                &&& r matches Ok(d) ==> d.injection_place == place && d.wf_from(
                    method@,
                    headers,
                    config.delay,
                    config.encode,
                    config.disable_custom_parameters,
                    outcome->Ok_0,
                )
            }),
    {
        let template = match &config.template {
            Some(t) => Some(t.as_str()),
            None => None,
        };
        let joiner = match &config.joiner {
            Some(j) => Some(j.as_str()),
            None => None,
        };
        Self::new(
            method,
            url,
            clone_headers(&config.custom_headers),
            config.delay,
            template,
            joiner,
            config.encode,
            config.data_type,
            config.invert,
            config.headers_discovery,
            config.body.as_str(),
            config.disable_custom_parameters,
        )
    }

    /// The defaults have the given method, headers, delay and flags, the given parts
    /// (scheme, path, host, port, template, joiner, whether JSON, body),
    /// no added parameters and no known reflections yet.
    pub open spec fn wf_from(
        self,
        method: Seq<char>,
        custom_headers: Seq<(Seq<char>, Seq<char>)>,
        delay: Duration,
        encode: bool,
        disable_custom_parameters: bool,
        parts: (Seq<char>, Seq<char>, Seq<char>, u16, Seq<char>, Seq<char>, bool, Seq<char>),
    ) -> bool {
        &&& self.method@ == method
        &&& header_views(self.custom_headers@) == custom_headers
        &&& self.delay == delay
        &&& self.encode == encode
        &&& self.disable_custom_parameters == disable_custom_parameters
        &&& self.scheme@ == parts.0
        &&& self.path@ == parts.1
        &&& self.host@ == parts.2
        &&& self.port == parts.3
        &&& self.template@ == parts.4
        &&& self.joiner@ == parts.5
        &&& self.is_json == parts.6
        &&& self.body@ == parts.7
        &&& self.parameters@.len() == 0
        &&& self.amount_of_reflections == 0
    }

    /// Request defaults with the injection place given.
    pub fn from_parts(
        method: &str,
        url: &str,
        custom_headers: Vec<(String, String)>,
        delay: Duration,
        template: Option<&str>,
        joiner: Option<&str>,
        encode: bool,
        data_type: Option<DataType>,
        injection_place: InjectionPlace,
        body: &str,
        disable_custom_parameters: bool,
    ) -> (r: Result<Self, RequestError>)
        ensures
            ({
                let outcome = defaults_outcome(
                    url@,
                    opt_str_view(template),
                    opt_str_view(joiner),
                    data_type,
                    injection_place,
                    body@,
                );
                &&& r is Ok <==> outcome is Ok
                &&& r matches Err(e) ==> outcome == Err::<
                    (Seq<char>, Seq<char>, Seq<char>, u16, Seq<char>, Seq<char>, bool, Seq<char>),
                    RequestError,
                >(e)
                &&& r matches Ok(d) ==> d.injection_place == injection_place && d.wf_from(
                    method@,
                    header_views(custom_headers@),
                    delay,
                    encode,
                    disable_custom_parameters,
                    outcome->Ok_0,
                )
            }),
    {
        let (guessed_template, guessed_joiner, is_json, data_type) = Self::guess_data_format(
            body,
            injection_place,
            data_type,
        );
        let template = match template {
            Some(t) => t,
            None => guessed_template,
        };
        let joiner = match joiner {
            Some(j) => j,
            None => guessed_joiner,
        };
        let parts = match parse_url(url) {
            Ok(p) => p,
            Err(_) => {
                return Err(RequestError::InvalidUrl);
            },
        };
        let (scheme, url_path, query, host, port, _) = parts;
        let mut full_path = url_path;
        match query {
            Some(q) => {
                full_path.append("?");
                full_path.append(q.as_str());
            },
            None => {},
        }
        let (path, body) = match data_type {
            Some(dt) => Self::fix_path_and_body(
                full_path.as_str(),
                body,
                joiner,
                injection_place,
                dt,
            ),
            None => (full_path, String::from_str(body)),
        };
        let host = match host {
            Some(h) => h,
            None => {
                return Err(RequestError::HostMissing);
            },
        };
        let port = match port {
            Some(p) => p,
            None => {
                return Err(RequestError::WrongScheme);
            },
        };
        Ok(
            RequestDefaults {
                method: String::from_str(method),
                scheme,
                path,
                host,
                port,
                custom_headers,
                delay,
                template: String::from_str(template),
                joiner: String::from_str(joiner),
                encode,
                is_json,
                body,
                disable_custom_parameters,
                parameters: Vec::new(),
                injection_place,
                amount_of_reflections: 0,
            },
        )
    }

    /// The template, joiner, whether the data is JSON, and the data type where
    /// parameters do not go into headers.
    pub fn guess_data_format(
        body: &str,
        injection_place: InjectionPlace,
        data_type: Option<DataType>,
    ) -> (r: (&'static str, &'static str, bool, Option<DataType>))
        ensures
            (r.0@, r.1@, r.2, r.3) == spec_guess_data_format(body@, injection_place, data_type),
    {
        let json = ("\"{k}\": {v}", ", ", true, Some(DataType::Json));
        assert(json.0@ == json_template() && json.1@ == ", "@);
        let urlencoded = ("{k}={v}", "&", false, Some(DataType::Urlencoded));
        assert(urlencoded.0@ == "{k}={v}"@ && urlencoded.1@ == "&"@);
        match data_type {
            Some(DataType::Json) => json,
            Some(DataType::Urlencoded) => urlencoded,
            Some(DataType::ProbablyJson) if injection_place == InjectionPlace::Body => json,
            _ => match injection_place {
                InjectionPlace::Body => {
                    let b = chars_of(body);
                    let brace = chars_of("{");
                    if starts_with_exec(&b, &brace) {
                        json
                    } else {
                        urlencoded
                    }
                },
                InjectionPlace::HeaderValue => ("{k}={v}", "; ", false, None),
                InjectionPlace::Path => urlencoded,
                InjectionPlace::Headers => ("", "", false, None),
            },
        }
    }

    /// Adds an injection point (`%s`) to the path or the body where there is none.
    pub fn fix_path_and_body(
        path: &str,
        body: &str,
        joiner: &str,
        injection_place: InjectionPlace,
        data_type: DataType,
    ) -> (r: (String, String))
        ensures
            (r.0@, r.1@) == spec_fix_path_and_body(
                path@,
                body@,
                joiner@,
                injection_place,
                data_type,
            ),
    {
        let marker = chars_of("%s");
        match injection_place {
            InjectionPlace::Body => {
                let b = chars_of(body);
                if contains_exec(&b, &marker) {
                    (String::from_str(path), String::from_str(body))
                } else if b.len() == 0 {
                    if data_type == DataType::Json {
                        (String::from_str(path), String::from_str("{%s}"))
                    } else {
                        (String::from_str(path), String::from_str("%s"))
                    }
                } else if data_type == DataType::Json {
                    let head = slice_to_vec(&b, 0, b.len() - 1);
                    let mut new_body = string_from_chars(&head);
                    new_body.append(", %s}");
                    (String::from_str(path), new_body)
                } else {
                    let mut new_body = String::from_str(body);
                    new_body.append(joiner);
                    new_body.append("%s");
                    (String::from_str(path), new_body)
                }
            },
            InjectionPlace::Path => {
                let p = chars_of(path);
                let question = chars_of("?");
                if contains_exec(&p, &marker) {
                    (String::from_str(path), String::from_str(body))
                } else if contains_exec(&p, &question) {
                    let mut new_path = String::from_str(path);
                    new_path.append(joiner);
                    new_path.append("%s");
                    (new_path, String::from_str(body))
                } else if str_eq(joiner, "&") {
                    let mut new_path = String::from_str(path);
                    new_path.append("?%s");
                    (new_path, String::from_str(body))
                } else {
                    let mut new_path = String::from_str(path);
                    new_path.append("%s");
                    (new_path, String::from_str(body))
                }
            },
            _ => (String::from_str(path), String::from_str(body)),
        }
    }

    /// `scheme://host:port/path`.
    pub fn url(&self) -> (r: String)
        ensures
            r@ == self.spec_url(),
    {
        let mut u = self.scheme.clone();
        u.append("://");
        u.append(self.host.as_str());
        u.append(":");
        let port = string_from_chars(&decimal_exec(self.port as u128));
        u.append(port.as_str());
        u.append(self.path.as_str());
        u
    }

    pub open spec fn spec_url(&self) -> Seq<char> {
        self.scheme@ + "://"@ + self.host@ + ":"@ + decimal(self.port as nat) + self.path@
    }

    /// Whether the port is the default one of the scheme (443 for https, 80 for http).
    pub open spec fn has_default_port(&self) -> bool {
        (self.scheme@ == "https"@ && self.port == 443) || (self.scheme@ == "http"@ && self.port
            == 80)
    }

    /// The url, without the port where it is the scheme's default.
    pub open spec fn spec_url_without_default_port(&self) -> Seq<char> {
        if self.has_default_port() {
            self.scheme@ + "://"@ + self.host@ + self.path@
        } else {
            self.spec_url()
        }
    }

    /// The url, without the port where it is the scheme's default.
    pub fn url_without_default_port(&self) -> (r: String)
        ensures
            r@ == self.spec_url_without_default_port(),
    {
        let is_default = (str_eq(self.scheme.as_str(), "https") && self.port == 443) || (str_eq(
            self.scheme.as_str(),
            "http",
        ) && self.port == 80);
        if is_default {
            let mut u = self.scheme.clone();
            u.append("://");
            u.append(self.host.as_str());
            u.append(self.path.as_str());
            u
        } else {
            self.url()
        }
    }

    /// Request defaults made again from this one's url and body, with another data
    /// type, template or joiner, in the same injection place.
    pub fn recreate(
        &self,
        data_type: Option<DataType>,
        template: Option<&str>,
        joiner: Option<&str>,
    ) -> (r: Result<Self, RequestError>)
        ensures
            ({
                let outcome = defaults_outcome(
                    self.spec_url(),
                    opt_str_view(template),
                    opt_str_view(joiner),
                    data_type,
                    self.injection_place,
                    self.body@,
                );
                &&& r is Ok <==> outcome is Ok
                &&& r matches Ok(d) ==> d.injection_place == self.injection_place && d.wf_from(
                    self.method@,
                    header_views(self.custom_headers@),
                    self.delay,
                    self.encode,
                    self.disable_custom_parameters,
                    outcome->Ok_0,
                )
            }),
    {
        let url = self.url();
        let headers = clone_headers(&self.custom_headers);
        Self::from_parts(
            self.method.as_str(),
            url.as_str(),
            headers,
            self.delay,
            template,
            joiner,
            self.encode,
            data_type,
            self.injection_place,
            self.body.as_str(),
            self.disable_custom_parameters,
        )
    }
}

/// A copy of a header list.
pub fn clone_headers(hs: &Vec<(String, String)>) -> (r: Vec<(String, String)>)
    ensures
        header_views(r@) == header_views(hs@),
{
    let mut out: Vec<(String, String)> = Vec::new();
    let mut i: usize = 0;
    while i < hs.len()
        invariant
            i <= hs.len(),
            out@.len() == i,
            forall|m: int|
                0 <= m < i ==> (#[trigger] out@[m]).0@ == hs@[m].0@ && out@[m].1@ == hs@[m].1@,
        decreases hs.len() - i,
    {
        let pair = (hs[i].0.clone(), hs[i].1.clone());
        out.push(pair);
        i = i + 1;
    }
    assert(header_views(out@) =~= header_views(hs@));
    out
}

fn is_body_method_exec(method: &str) -> (r: bool)
    ensures
        r == is_body_method(method@),
{
    str_eq(method, "POST") || str_eq(method, "PUT") || str_eq(method, "PATCH") || str_eq(
        method,
        "DELETE",
    )
}

/// Where parameters go (see `spec_injection_place`).
pub fn injection_place_of(
    method: &str,
    custom_headers: &Vec<(String, String)>,
    invert: bool,
    headers_discovery: bool,
) -> (r: InjectionPlace)
    ensures
        r == spec_injection_place(method@, header_views(custom_headers@), invert, headers_discovery),
{
    let ghost hs = header_views(custom_headers@);
    let marker = chars_of("%s");
    let mut i: usize = 0;
    while i < custom_headers.len()
        invariant
            i <= custom_headers.len(),
            hs == header_views(custom_headers@),
            marker@ == "%s"@,
            forall|m: int| 0 <= m < i ==> !contains((#[trigger] hs[m]).1, "%s"@),
        decreases custom_headers.len() - i,
    {
        let v = chars_of(custom_headers[i].1.as_str());
        if contains_exec(&v, &marker) {
            assert(contains(hs[i as int].1, "%s"@));
            return InjectionPlace::HeaderValue;
        }
        i = i + 1;
    }
    if headers_discovery {
        InjectionPlace::Headers
    } else if is_body_method_exec(method) != invert {
        InjectionPlace::Body
    } else {
        InjectionPlace::Path
    }
}

/// One parameter written with a template: `{k}` replaced by the name, then `{v}` by the value.
pub open spec fn param_entry(template: Seq<char>, k: Seq<char>, v: Seq<char>) -> Seq<char> {
    replace(replace(template, "{k}"@, k), "{v}"@, v)
}

/// The parameters written with the template and joined, percent-encoded with `encode`.
pub open spec fn query_text(
    template: Seq<char>,
    joiner: Seq<char>,
    encode: bool,
    params: Seq<(Seq<char>, Seq<char>)>,
) -> Seq<char> {
    let q = join(params.map_values(|p: (Seq<char>, Seq<char>)| param_entry(template, p.0, p.1)), joiner);
    if encode {
        percent_encode(q)
    } else {
        q
    }
}

/// What separates a parameter's name from a fixed value: `admin%=%true`.
pub open spec fn value_separator() -> Seq<char> {
    "%=%"@
}

/// The variable replaced by a random word.
pub open spec fn random_variable() -> Seq<char> {
    "{{random}}"@
}

/// A parameter with a fixed value, split into name and value: the text before the
/// first separator and the text between it and the next one.
pub open spec fn split_pair(x: Seq<char>) -> (Seq<char>, Seq<char>) {
    let parts = split(x, value_separator());
    (parts[0], if parts.len() > 1 {
        parts[1]
    } else {
        ""@
    })
}

/// The parameters with fixed values, split into names and values, in order.
pub open spec fn nonrandom_pairs(ps: Seq<Seq<char>>) -> Seq<(Seq<char>, Seq<char>)>
    decreases ps.len(),
{
    if ps.len() == 0 {
        Seq::empty()
    } else if contains(ps.last(), value_separator()) {
        nonrandom_pairs(ps.drop_last()).push(split_pair(ps.last()))
    } else {
        nonrandom_pairs(ps.drop_last())
    }
}

/// The parameters that get random values: those that are not empty and have no fixed value.
pub open spec fn random_names(ps: Seq<Seq<char>>) -> Seq<Seq<char>>
    decreases ps.len(),
{
    if ps.len() == 0 {
        Seq::empty()
    } else if ps.last().len() > 0 && !contains(ps.last(), value_separator()) {
        random_names(ps.drop_last()).push(ps.last())
    } else {
        random_names(ps.drop_last())
    }
}

/// The distinct elements, in the order they first occur.
pub open spec fn distinct(ps: Seq<Seq<char>>) -> Seq<Seq<char>>
    decreases ps.len(),
{
    if ps.len() == 0 {
        Seq::empty()
    } else if distinct(ps.drop_last()).contains(ps.last()) {
        distinct(ps.drop_last())
    } else {
        distinct(ps.drop_last()).push(ps.last())
    }
}

/// The pairs are the names, each with a random word as its value.
pub open spec fn with_random_values(
    pairs: Seq<(Seq<char>, Seq<char>)>,
    names: Seq<Seq<char>>,
) -> bool {
    &&& pairs.len() == names.len()
    &&& forall|j: int|
        0 <= j < pairs.len() ==> (#[trigger] pairs[j]).0 == names[j] && is_random_word(
            pairs[j].1,
            crate::RANDOM_LENGTH as nat,
        )
}

/// `out` is `template` with the random variable replaced by a random word.
pub open spec fn randomized(template: Seq<char>, out: Seq<char>) -> bool {
    exists|r: Seq<char>|
        is_random_word(r, crate::RANDOM_LENGTH as nat) && out == replace(
            template,
            random_variable(),
            r,
        )
}

/// `out` is `template` with the random variable replaced by a random word and the
/// injection point by `query`.
pub open spec fn injected(template: Seq<char>, query: Seq<char>, out: Seq<char>) -> bool {
    exists|r: Seq<char>|
        is_random_word(r, crate::RANDOM_LENGTH as nat) && out == replace(
            replace(template, random_variable(), r),
            "%s"@,
            query,
        )
}

/// The headers are the custom headers with random words in their values.
pub open spec fn randomized_headers(
    custom: Seq<(Seq<char>, Seq<char>)>,
    out: Seq<(Seq<char>, Seq<char>)>,
) -> bool {
    &&& out.len() == custom.len()
    &&& forall|i: int|
        0 <= i < out.len() ==> (#[trigger] out[i]).0 == custom[i].0 && randomized(
            custom[i].1,
            out[i].1,
        )
}

/// The headers are the custom headers with random words and the query in their values.
pub open spec fn injected_headers(
    custom: Seq<(Seq<char>, Seq<char>)>,
    query: Seq<char>,
    out: Seq<(Seq<char>, Seq<char>)>,
) -> bool {
    &&& out.len() == custom.len()
    &&& forall|i: int|
        0 <= i < out.len() ==> (#[trigger] out[i]).0 == custom[i].0 && injected(
            custom[i].1,
            query,
            out[i].1,
        )
}

/// The `Content-Type` header a body gets when none is given.
pub open spec fn content_type_header(is_json: bool) -> (Seq<char>, Seq<char>) {
    ("Content-Type"@, if is_json {
        "application/json"@
    } else {
        "application/x-www-form-urlencoded"@
    })
}

/// A request whose parameters go into the body, prepared without a `Content-Type` among
/// its custom headers, ends with a `Content-Type` header that names the body's format:
/// `application/json` for a JSON body and `application/x-www-form-urlencoded` otherwise.
pub proof fn lemma_body_content_type(r: Request, before: Request, additional: Option<Seq<char>>)
    requires
        r.prepared_by(before, additional),
        r.defaults.injection_place == InjectionPlace::Body,
        !has_header(header_views(r.defaults.custom_headers@), "Content-Type"@),
    ensures
        header_views(r.headers@).len() > 0,
        header_views(r.headers@).last() == ("Content-Type"@, if r.defaults.is_json {
            "application/json"@
        } else {
            "application/x-www-form-urlencoded"@
        }),
{
    let headers = header_views(r.headers@);
    let old_len = header_views(before.headers@).len();
    let added = headers.skip(old_len as int);
    let n = header_views(r.defaults.custom_headers@).len();
    assert(added.len() == n + 1);
    assert(added[n as int] == headers[(old_len + n) as int]);
    assert(headers.len() == old_len + n + 1);
}

/// The headers `prepare` adds for the injection place.
pub open spec fn added_headers(
    place: InjectionPlace,
    custom: Seq<(Seq<char>, Seq<char>)>,
    is_json: bool,
    parameters: Seq<Seq<char>>,
    query: Seq<char>,
    added: Seq<(Seq<char>, Seq<char>)>,
) -> bool {
    let n = custom.len();
    match place {
        InjectionPlace::HeaderValue => injected_headers(custom, query, added),
        InjectionPlace::Path => randomized_headers(custom, added),
        InjectionPlace::Body => {
            &&& randomized_headers(custom, added.take(n as int))
            &&& if has_header(custom, "Content-Type"@) {
                added.len() == n
            } else {
                added.len() == n + 1 && added[n as int] == content_type_header(is_json)
            }
        },
        InjectionPlace::Headers => {
            &&& n <= added.len()
            &&& randomized_headers(custom, added.take(n as int))
            &&& with_random_values(added.skip(n as int), distinct(parameters))
        },
    }
}

/// The view of an optional string reference.
pub open spec fn opt_string_view(o: Option<&String>) -> Option<Seq<char>> {
    match o {
        Some(s) => Some(s@),
        None => None,
    }
}

/// A request made from request defaults and a list of parameters.
#[derive(Debug)]
pub struct Request<'a> {
    pub defaults: &'a RequestDefaults,
    /// The parameters supplied; `name%=%value` gives a fixed value.
    pub parameters: Vec<String>,
    /// The parameters with their values, once prepared.
    pub prepared_parameters: Vec<(String, String)>,
    /// The parameters with fixed values; their reflections are not counted.
    pub non_random_parameters: Vec<(String, String)>,
    pub headers: Vec<(String, String)>,
    pub body: String,
    pub path: String,
    /// Whether the parameters and variables are filled in.
    pub prepared: bool,
}

impl<'a> Request<'a> {
    /// A request for the parameters that is not prepared yet.
    pub fn new(l: &'a RequestDefaults, parameters: Vec<String>) -> (r: Self)
        ensures
            r.defaults == l,
            r.parameters == parameters,
            pair_views(r.prepared_parameters@) == pair_views(l.parameters@),
            r.non_random_parameters@.len() == 0,
            r.headers@.len() == 0,
            r.body@ == l.body@,
            r.path@ == l.path@,
            !r.prepared,
    {
        Request {
            path: l.path.clone(),
            defaults: l,
            headers: Vec::new(),
            body: l.body.clone(),
            parameters,
            prepared_parameters: clone_headers(&l.parameters),
            non_random_parameters: Vec::new(),
            prepared: false,
        }
    }

    /// A request for `max` random parameters.
    pub fn new_random(l: &'a RequestDefaults, max: usize) -> (r: Self)
        ensures
            r.defaults == l,
            r.parameters@.len() == max,
            forall|i: int|
                0 <= i < max ==> is_random_word(
                    #[trigger] r.parameters@[i]@,
                    crate::RANDOM_LENGTH as nat,
                ),
            pair_views(r.prepared_parameters@) == pair_views(l.parameters@),
            r.headers@.len() == 0,
            r.body@ == l.body@,
            r.path@ == l.path@,
            !r.prepared,
    {
        let mut parameters: Vec<String> = Vec::new();
        let mut i: usize = 0;
        while i < max
            invariant
                i <= max,
                parameters@.len() == i,
                forall|m: int|
                    0 <= m < i ==> is_random_word(
                        #[trigger] parameters@[m]@,
                        crate::RANDOM_LENGTH as nat,
                    ),
            decreases max - i,
        {
            parameters.push(random_line(crate::RANDOM_LENGTH));
            i = i + 1;
        }
        Request::new(l, parameters)
    }

    /// Adds a header.
    pub fn set_header(&mut self, key: &str, value: &str)
        ensures
            header_views(final(self).headers@) == header_views(old(self).headers@).push(
                (key@, value@),
            ),
            final(self).defaults == old(self).defaults,
            final(self).parameters == old(self).parameters,
            final(self).prepared_parameters == old(self).prepared_parameters,
            final(self).non_random_parameters == old(self).non_random_parameters,
            final(self).body == old(self).body,
            final(self).path == old(self).path,
            final(self).prepared == old(self).prepared,
    {
        let ghost before = self.headers@;
        let pair = (String::from_str(key), String::from_str(value));
        self.headers.push(pair);
        assert(header_views(self.headers@) =~= header_views(before).push((key@, value@)));
    }

    /// Adds headers, in order.
    pub fn set_headers(&mut self, headers: Vec<(String, String)>)
        ensures
            header_views(final(self).headers@) == header_views(old(self).headers@) + header_views(
                headers@,
            ),
            final(self).defaults == old(self).defaults,
            final(self).parameters == old(self).parameters,
            final(self).prepared_parameters == old(self).prepared_parameters,
            final(self).non_random_parameters == old(self).non_random_parameters,
            final(self).body == old(self).body,
            final(self).path == old(self).path,
            final(self).prepared == old(self).prepared,
    {
        let ghost before = self.headers@;
        let mut i: usize = 0;
        while i < headers.len()
            invariant
                i <= headers.len(),
                self.headers@.len() == before.len() + i,
                forall|m: int| 0 <= m < before.len() ==> #[trigger] self.headers@[m] == before[m],
                forall|m: int|
                    0 <= m < i ==> (#[trigger] self.headers@[before.len() + m]).0@ == headers@[m].0@
                        && self.headers@[before.len() + m].1@ == headers@[m].1@,
                self.defaults == old(self).defaults,
                self.parameters == old(self).parameters,
                self.prepared_parameters == old(self).prepared_parameters,
                self.non_random_parameters == old(self).non_random_parameters,
                self.body == old(self).body,
                self.path == old(self).path,
                self.prepared == old(self).prepared,
            decreases headers.len() - i,
        {
            let pair = (headers[i].0.clone(), headers[i].1.clone());
            self.headers.push(pair);
            i = i + 1;
        }
        assert forall|j: int| 0 <= j < self.headers@.len() implies #[trigger] header_views(
            self.headers@,
        )[j] == (header_views(before) + header_views(headers@))[j] by {
            if j >= before.len() {
                let m = j - before.len();
                assert(self.headers@[before.len() + m].0@ == headers@[m].0@);
            }
        }
        assert(header_views(self.headers@) =~= header_views(before) + header_views(headers@));
    }

    /// Fills in the parameters' values, the random words and the injection point.
    /// `additional_param` (if not empty) gets a random value as well; it is used
    /// to count reflections. A prepared request is left as it is.
    pub fn prepare(&mut self, additional_param: Option<&String>)
        ensures
            old(self).prepared ==> *final(self) == *old(self),
            !old(self).prepared ==> final(self).prepared_by(*old(self), opt_string_view(additional_param)),
    {
        if self.prepared {
            return;
        }
        let ghost before = *self;
        self.prepared = true;
        self.non_random_parameters = nonrandom_pairs_exec(&self.parameters);
        let mut fixed = clone_headers(&self.non_random_parameters);
        let mut random = random_pairs_exec(&self.parameters, additional_param);
        let ghost base = pair_views(self.prepared_parameters@);
        let ghost fixed_view = pair_views(fixed@);
        let ghost random_view = pair_views(random@);
        self.prepared_parameters.append(&mut fixed);
        self.prepared_parameters.append(&mut random);
        assert(pair_views(self.prepared_parameters@) =~= base + fixed_view + random_view);
        let ghost custom = header_views(self.defaults.custom_headers@);
        let ghost headers_before = header_views(self.headers@);
        if self.defaults.injection_place != InjectionPlace::HeaderValue {
            let added = randomized_custom_headers(&self.defaults.custom_headers);
            self.set_headers(added);
        }
        let ghost after_custom = header_views(self.headers@);
        self.path = randomize(&self.path);
        self.body = randomize(&self.body);
        let ghost path_r = self.path@;
        let ghost body_r = self.body@;
        let query = self.make_query();
        let marker = chars_of("%s");
        let q = chars_of(query.as_str());
        match self.defaults.injection_place {
            InjectionPlace::Path => {
                let p = chars_of(self.path.as_str());
                self.path = string_from_chars(&replace_exec(&p, &marker, &q));
            },
            InjectionPlace::Body => {
                let b = chars_of(self.body.as_str());
                self.body = string_from_chars(&replace_exec(&b, &marker, &q));
                if !self.defaults.custom_headers.contains_key("Content-Type") {
                    if self.defaults.is_json {
                        self.set_header("Content-Type", "application/json");
                    } else {
                        self.set_header("Content-Type", "application/x-www-form-urlencoded");
                    }
                }
            },
            InjectionPlace::HeaderValue => {
                let added = injected_custom_headers(&self.defaults.custom_headers, query.as_str());
                self.set_headers(added);
            },
            InjectionPlace::Headers => {
                let added = distinct_random_headers(&self.parameters);
                self.set_headers(added);
            },
        }
        proof {
            let fin = header_views(self.headers@);
            let added = fin.skip(headers_before.len() as int);
            assert(fin =~= headers_before + added);
            if self.defaults.injection_place == InjectionPlace::Path {
                assert(added =~= after_custom.skip(headers_before.len() as int));
            } else if self.defaults.injection_place == InjectionPlace::Body {
                assert(added.take(custom.len() as int) =~= after_custom.skip(
                    headers_before.len() as int,
                ));
            } else if self.defaults.injection_place == InjectionPlace::Headers {
                assert(added.take(custom.len() as int) =~= after_custom.skip(
                    headers_before.len() as int,
                ));
            }
            let params = pair_views(self.prepared_parameters@);
            assert(self.prepared);
            assert(self.defaults == before.defaults);
            assert(self.parameters == before.parameters);
            assert(params.take((base.len() + fixed_view.len()) as int) =~= base + fixed_view);
            assert(params.skip((base.len() + fixed_view.len()) as int) =~= random_view);
            assert(fin.take(headers_before.len() as int) =~= headers_before);
        }
    }

    /// This request is `before` prepared: the fixed values split off, random values
    /// for the other parameters (and the additional one), random words in the
    /// variables, and the query put at the injection place.
    pub open spec fn prepared_by(self, before: Self, additional: Option<Seq<char>>) -> bool {
        let names = random_names(
            views(before.parameters@).push(
                match additional {
                    Some(a) => a,
                    None => ""@,
                },
            ),
        );
        let fixed = nonrandom_pairs(views(before.parameters@));
        let base = pair_views(before.prepared_parameters@);
        let params = pair_views(self.prepared_parameters@);
        let custom = header_views(self.defaults.custom_headers@);
        let headers = header_views(self.headers@);
        let old_headers = header_views(before.headers@);
        let query = query_text(
            self.defaults.template@,
            self.defaults.joiner@,
            self.defaults.encode,
            params,
        );
        let place = self.defaults.injection_place;
        &&& self.prepared
        &&& self.defaults == before.defaults
        &&& self.parameters == before.parameters
        &&& pair_views(self.non_random_parameters@) == fixed
        &&& params.len() == base.len() + fixed.len() + names.len()
        &&& params.take((base.len() + fixed.len()) as int) == base + fixed
        &&& with_random_values(params.skip((base.len() + fixed.len()) as int), names)
        &&& headers.take(old_headers.len() as int) == old_headers
        &&& old_headers.len() <= headers.len()
        &&& added_headers(
            place,
            custom,
            self.defaults.is_json,
            views(before.parameters@),
            query,
            headers.skip(old_headers.len() as int),
        )
        &&& if place == InjectionPlace::Path {
            injected(before.path@, query, self.path@)
        } else {
            randomized(before.path@, self.path@)
        }
        &&& if place == InjectionPlace::Body {
            injected(before.body@, query, self.body@)
        } else {
            randomized(before.body@, self.body@)
        }
    }

    /// The request as text: request line, `Host` header, the headers sorted, and the body.
    pub fn print_sent(&self) -> (r: String)
        ensures
            exists|sorted: Seq<(Seq<char>, Seq<char>)>|
                #[trigger] is_sorted_of(sorted, header_views(self.headers@)) && r@ == request_text(
                    self.defaults.method@,
                    self.path@,
                    self.defaults.host@,
                    sorted,
                    self.body@,
                ),
    {
        let mut out = self.defaults.method.clone();
        out.append(" ");
        out.append(self.path.as_str());
        out.append(" HTTP/x\nHost: ");
        out.append(self.defaults.host.as_str());
        out.append("\n");
        let sorted = sort_pairs(clone_headers(&self.headers));
        let lines = header_lines_exec(&sorted);
        out.append(lines.as_str());
        out.append("\n");
        out.append(self.body.as_str());
        assert(is_sorted_of(pair_views(sorted@), header_views(self.headers@)));
        out
    }

    /// Prepares the request (with a random additional parameter) and prints it.
    pub fn print(&mut self) -> (r: String)
        ensures
            final(self).prepared,
            old(self).prepared ==> *final(self) == *old(self),
            exists|sorted: Seq<(Seq<char>, Seq<char>)>|
                #[trigger] is_sorted_of(sorted, header_views(final(self).headers@)) && r@
                    == request_text(
                    final(self).defaults.method@,
                    final(self).path@,
                    final(self).defaults.host@,
                    sorted,
                    final(self).body@,
                ),
    {
        let extra = random_line(crate::RANDOM_LENGTH);
        self.prepare(Some(&extra));
        self.print_sent()
    }

    /// `scheme://host:port/path` with the request's path.
    pub fn url(&self) -> (r: String)
        ensures
            r@ == self.defaults.scheme@ + "://"@ + self.defaults.host@ + ":"@ + decimal(
                self.defaults.port as nat,
            ) + self.path@,
    {
        let mut u = self.defaults.scheme.clone();
        u.append("://");
        u.append(self.defaults.host.as_str());
        u.append(":");
        let port = string_from_chars(&decimal_exec(self.defaults.port as u128));
        u.append(port.as_str());
        u.append(self.path.as_str());
        u
    }

    /// The prepared parameters written with the template, joined, and percent-encoded
    /// when the defaults say so.
    pub fn make_query(&self) -> (r: String)
        ensures
            r@ == query_text(
                self.defaults.template@,
                self.defaults.joiner@,
                self.defaults.encode,
                pair_views(self.prepared_parameters@),
            ),
    {
        let ghost ps = pair_views(self.prepared_parameters@);
        let ghost f = |p: (Seq<char>, Seq<char>)| param_entry(self.defaults.template@, p.0, p.1);
        let template = chars_of(self.defaults.template.as_str());
        let k_var = chars_of("{k}");
        let v_var = chars_of("{v}");
        let mut entries: Vec<Vec<char>> = Vec::new();
        let mut i: usize = 0;
        while i < self.prepared_parameters.len()
            invariant
                i <= self.prepared_parameters.len(),
                ps == pair_views(self.prepared_parameters@),
                template@ == self.defaults.template@,
                k_var@ == "{k}"@,
                v_var@ == "{v}"@,
                f == (|p: (Seq<char>, Seq<char>)| param_entry(self.defaults.template@, p.0, p.1)),
                entries@.len() == i,
                forall|m: int| 0 <= m < i ==> (#[trigger] entries@[m])@ == f(ps[m]),
            decreases self.prepared_parameters.len() - i,
        {
            let k = chars_of(self.prepared_parameters[i].0.as_str());
            let v = chars_of(self.prepared_parameters[i].1.as_str());
            let with_k = replace_exec(&template, &k_var, &k);
            let entry = replace_exec(&with_k, &v_var, &v);
            entries.push(entry);
            i = i + 1;
        }
        assert(entries@.map_values(|v: Vec<char>| v@) =~= ps.map_values(f));
        let joiner = chars_of(self.defaults.joiner.as_str());
        let query = join_exec(&entries, &joiner);
        if self.defaults.encode {
            let q = string_from_chars(&query);
            string_from_chars(&percent_encode_str(q.as_str()))
        } else {
            string_from_chars(&query)
        }
    }
}

/// `sorted` is the headers in order (by name, then value).
pub open spec fn is_sorted_of(
    sorted: Seq<(Seq<char>, Seq<char>)>,
    hs: Seq<(Seq<char>, Seq<char>)>,
) -> bool {
    sorted_pairs(sorted) && sorted.to_multiset() == hs.to_multiset()
}

/// Headers as lines `name: value`.
pub open spec fn header_lines(hs: Seq<(Seq<char>, Seq<char>)>) -> Seq<char>
    decreases hs.len(),
{
    if hs.len() == 0 {
        Seq::empty()
    } else {
        header_lines(hs.drop_last()) + hs.last().0 + ": "@ + hs.last().1 + "\n"@
    }
}

/// A request as text.
pub open spec fn request_text(
    method: Seq<char>,
    path: Seq<char>,
    host: Seq<char>,
    sorted_headers: Seq<(Seq<char>, Seq<char>)>,
    body: Seq<char>,
) -> Seq<char> {
    method + " "@ + path + " HTTP/x\nHost: "@ + host + "\n"@ + header_lines(sorted_headers) + "\n"@
        + body
}

/// Headers as lines `name: value`.
pub fn header_lines_exec(hs: &Vec<(String, String)>) -> (r: String)
    ensures
        r@ == header_lines(header_views(hs@)),
{
    let ghost v = header_views(hs@);
    let mut out = String::new();
    let mut i: usize = 0;
    while i < hs.len()
        invariant
            i <= hs.len(),
            v == header_views(hs@),
            out@ == header_lines(v.take(i as int)),
        decreases hs.len() - i,
    {
        assert(v.take(i + 1).drop_last() =~= v.take(i as int));
        assert(v.take(i + 1).last() == (hs@[i as int].0@, hs@[i as int].1@));
        out.append(hs[i].0.as_str());
        out.append(": ");
        out.append(hs[i].1.as_str());
        out.append("\n");
        i = i + 1;
    }
    assert(v.take(i as int) =~= v);
    out
}

/// A string with the random variable replaced by a random word.
pub fn randomize(text: &String) -> (r: String)
    ensures
        randomized(text@, r@),
{
    let word = random_line(crate::RANDOM_LENGTH);
    let t = chars_of(text.as_str());
    let var = chars_of("{{random}}");
    let w = chars_of(word.as_str());
    let r = string_from_chars(&replace_exec(&t, &var, &w));
    assert(is_random_word(word@, crate::RANDOM_LENGTH as nat) && r@ == replace(
        text@,
        random_variable(),
        word@,
    ));
    r
}

/// A parameter with a fixed value split into its name and value.
pub fn split_pair_exec(x: &String) -> (r: (String, String))
    ensures
        (r.0@, r.1@) == split_pair(x@),
{
    let xs = chars_of(x.as_str());
    let sep = chars_of("%=%");
    let parts = split_exec(&xs, &sep);
    proof {
        reveal_strlit("%=%");
        crate::text::lemma_split_nonempty(x@, sep@);
        assert(parts@.map_values(|v: Vec<char>| v@)[0] == parts@[0]@);
    }
    let name = string_from_chars(&parts[0]);
    if parts.len() > 1 {
        assert(parts@.map_values(|v: Vec<char>| v@)[1] == parts@[1]@);
        (name, string_from_chars(&parts[1]))
    } else {
        proof {
            reveal_strlit("");
        }
        (name, String::new())
    }
}

/// The parameters with fixed values, split into names and values.
pub fn nonrandom_pairs_exec(ps: &Vec<String>) -> (r: Vec<(String, String)>)
    ensures
        pair_views(r@) == nonrandom_pairs(views(ps@)),
{
    let ghost vs = views(ps@);
    let sep = chars_of("%=%");
    let mut out: Vec<(String, String)> = Vec::new();
    let mut i: usize = 0;
    while i < ps.len()
        invariant
            i <= ps.len(),
            vs == views(ps@),
            sep@ == value_separator(),
            pair_views(out@) == nonrandom_pairs(vs.take(i as int)),
        decreases ps.len() - i,
    {
        assert(vs.take(i + 1).drop_last() =~= vs.take(i as int));
        assert(vs.take(i + 1).last() == ps@[i as int]@);
        let x = chars_of(ps[i].as_str());
        if contains_exec(&x, &sep) {
            let ghost prev = out@;
            let pair = split_pair_exec(&ps[i]);
            out.push(pair);
            assert(pair_views(out@) =~= pair_views(prev).push((pair.0@, pair.1@)));
        }
        i = i + 1;
    }
    assert(vs.take(i as int) =~= vs);
    out
}

/// The parameters (and the additional one) that get random values, each with one.
pub fn random_pairs_exec(ps: &Vec<String>, additional: Option<&String>) -> (r: Vec<(String, String)>)
    ensures
        with_random_values(
            pair_views(r@),
            random_names(
                views(ps@).push(
                    match opt_string_view(additional) {
                        Some(a) => a,
                        None => ""@,
                    },
                ),
            ),
        ),
{
    let empty = String::new();
    let extra: &String = match additional {
        Some(a) => a,
        None => &empty,
    };
    let ghost vs = views(ps@).push(extra@);
    assert(extra@ == match opt_string_view(additional) {
        Some(a) => a,
        None => ""@,
    }) by {
        if additional is None {
            reveal_strlit("");
        }
    }
    let sep = chars_of("%=%");
    let mut out: Vec<(String, String)> = Vec::new();
    let mut i: usize = 0;
    while i < ps.len()
        invariant
            i <= ps.len(),
            vs == views(ps@).push(extra@),
            sep@ == value_separator(),
            with_random_values(pair_views(out@), random_names(vs.take(i as int))),
        decreases ps.len() - i,
    {
        let ghost prev = pair_views(out@);
        assert(vs.take(i + 1).drop_last() =~= vs.take(i as int));
        assert(vs.take(i + 1).last() == ps@[i as int]@);
        let xs = chars_of(ps[i].as_str());
        if xs.len() > 0 && !contains_exec(&xs, &sep) {
            let value = random_line(crate::RANDOM_LENGTH);
            let pair = (ps[i].clone(), value);
            out.push(pair);
            assert(pair_views(out@) =~= prev.push((ps@[i as int]@, pair.1@)));
        }
        i = i + 1;
    }
    let ghost prev = pair_views(out@);
    assert(vs.take(i + 1).drop_last() =~= vs.take(i as int));
    assert(vs.take(i + 1).last() == extra@);
    let xs = chars_of(extra.as_str());
    if xs.len() > 0 && !contains_exec(&xs, &sep) {
        let value = random_line(crate::RANDOM_LENGTH);
        let pair = (extra.clone(), value);
        out.push(pair);
        assert(pair_views(out@) =~= prev.push((extra@, pair.1@)));
    }
    assert(vs.take(i + 1) =~= vs);
    out
}

/// The custom headers with random words in their values.
pub fn randomized_custom_headers(custom: &Vec<(String, String)>) -> (r: Vec<(String, String)>)
    ensures
        randomized_headers(header_views(custom@), header_views(r@)),
{
    let ghost cs = header_views(custom@);
    let mut out: Vec<(String, String)> = Vec::new();
    let mut i: usize = 0;
    while i < custom.len()
        invariant
            i <= custom.len(),
            cs == header_views(custom@),
            randomized_headers(cs.take(i as int), header_views(out@)),
        decreases custom.len() - i,
    {
        let ghost prev = header_views(out@);
        let value = randomize(&custom[i].1);
        let pair = (custom[i].0.clone(), value);
        out.push(pair);
        assert(header_views(out@) =~= prev.push((cs[i as int].0, pair.1@)));
        assert(cs.take(i + 1) =~= cs.take(i as int).push(cs[i as int]));
        i = i + 1;
    }
    assert(cs.take(i as int) =~= cs);
    out
}

/// The custom headers with random words and the query in their values.
pub fn injected_custom_headers(custom: &Vec<(String, String)>, query: &str) -> (r: Vec<
    (String, String),
>)
    ensures
        injected_headers(header_views(custom@), query@, header_views(r@)),
{
    let ghost cs = header_views(custom@);
    let marker = chars_of("%s");
    let q = chars_of(query);
    let mut out: Vec<(String, String)> = Vec::new();
    let mut i: usize = 0;
    while i < custom.len()
        invariant
            i <= custom.len(),
            cs == header_views(custom@),
            marker@ == "%s"@,
            q@ == query@,
            injected_headers(cs.take(i as int), query@, header_views(out@)),
        decreases custom.len() - i,
    {
        let ghost prev = header_views(out@);
        let word = random_line(crate::RANDOM_LENGTH);
        let t = chars_of(custom[i].1.as_str());
        let var = chars_of("{{random}}");
        let w = chars_of(word.as_str());
        let with_word = replace_exec(&t, &var, &w);
        let value = string_from_chars(&replace_exec(&with_word, &marker, &q));
        assert(is_random_word(word@, crate::RANDOM_LENGTH as nat) && value@ == replace(
            replace(cs[i as int].1, random_variable(), word@),
            "%s"@,
            query@,
        ));
        let pair = (custom[i].0.clone(), value);
        out.push(pair);
        assert(header_views(out@) =~= prev.push((cs[i as int].0, value@)));
        assert(cs.take(i + 1) =~= cs.take(i as int).push(cs[i as int]));
        i = i + 1;
    }
    assert(cs.take(i as int) =~= cs);
    out
}

/// The distinct parameters as headers, each with a random value.
pub fn distinct_random_headers(ps: &Vec<String>) -> (r: Vec<(String, String)>)
    ensures
        with_random_values(header_views(r@), distinct(views(ps@))),
{
    let ghost vs = views(ps@);
    let mut out: Vec<(String, String)> = Vec::new();
    let mut i: usize = 0;
    while i < ps.len()
        invariant
            i <= ps.len(),
            vs == views(ps@),
            with_random_values(header_views(out@), distinct(vs.take(i as int))),
        decreases ps.len() - i,
    {
        assert(vs.take(i + 1).drop_last() =~= vs.take(i as int));
        assert(vs.take(i + 1).last() == ps@[i as int]@);
        let ghost d = distinct(vs.take(i as int));
        let mut seen = false;
        let mut k: usize = 0;
        while k < out.len()
            invariant
                i < ps.len(),
                vs == views(ps@),
                k <= out.len(),
                out@.len() == d.len(),
                with_random_values(header_views(out@), d),
                seen <==> exists|m: int| 0 <= m < k && d[m] == ps@[i as int]@,
            decreases out.len() - k,
        {
            assert(header_views(out@)[k as int].0 == d[k as int]);
            if str_eq(out[k].0.as_str(), ps[i].as_str()) {
                seen = true;
            }
            k = k + 1;
        }
        if !seen {
            let ghost prev = header_views(out@);
            let value = random_line(crate::RANDOM_LENGTH);
            let pair = (ps[i].clone(), value);
            out.push(pair);
            assert(header_views(out@) =~= prev.push((ps@[i as int]@, pair.1@)));
            assert(!d.contains(ps@[i as int]@));
        } else {
            assert(d.contains(ps@[i as int]@));
        }
        i = i + 1;
    }
    assert(vs.take(i as int) =~= vs);
    out
}

} // verus!
